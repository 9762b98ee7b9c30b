use vstd::prelude::*;

verus! {

// Names for the results of outside computations that are functions of their
// arguments alone. Nothing in the library claims what these results are on
// given inputs; verified code only carries them through.

/// Whether a pattern is accepted by the regex compiler.
pub uninterp spec fn regex_ok(pattern: Seq<char>) -> bool;

/// Whether a text matches a compiled pattern.
pub uninterp spec fn regex_found(pattern: Seq<char>, text: Seq<char>) -> bool;

/// The text after every match of the pattern is replaced.
pub uninterp spec fn regex_replaced(pattern: Seq<char>, text: Seq<char>, rep: Seq<char>) -> Seq<
    char,
>;

/// Whether a credential matches a salted hash.
pub uninterp spec fn bcrypt_matches(password: Seq<char>, hash: Seq<char>) -> bool;

/// Whether a stored hash is well-formed enough for verification to run.
pub uninterp spec fn bcrypt_parses(hash: Seq<char>) -> bool;

/// Relies on regex::Regex::new and regex::Regex::is_match: compilation
/// succeeds exactly on valid patterns, and matching is a function of the
/// pattern and the haystack.
#[verifier::external_body]
pub(crate) fn regex_match_str(pattern: &str, text: &str) -> (r: Option<bool>)
    ensures
        (r is Some) == regex_ok(pattern@),
        r matches Some(b) ==> b == regex_found(pattern@, text@),
{
    match regex::Regex::new(pattern) {
        Ok(re) => Some(re.is_match(text)),
        Err(_) => None,
    }
}

/// Relies on regex::Regex::new and regex::Regex::replace_all: the replacement
/// of every match is a function of the pattern, the haystack and the
/// replacement string.
#[verifier::external_body]
pub(crate) fn regex_replace_str(pattern: &str, text: &str, rep: &str) -> (r: Option<String>)
    ensures
        (r is Some) == regex_ok(pattern@),
        r matches Some(s) ==> s@ == regex_replaced(pattern@, text@, rep@),
{
    match regex::Regex::new(pattern) {
        Ok(re) => Some(re.replace_all(text, rep).into_owned()),
        Err(_) => None,
    }
}

/// Relies on bcrypt::hash with bcrypt::DEFAULT_COST: a produced hash is
/// well-formed and verifies against the password it was made from; the salt
/// is drawn from the operating system, so nothing else is promised.
#[verifier::external_body]
pub(crate) fn bcrypt_hash_password(password: &str) -> (r: Option<String>)
    ensures
        r matches Some(h) ==> bcrypt_matches(password@, h@) && bcrypt_parses(h@),
{
    match bcrypt::hash(password, bcrypt::DEFAULT_COST) {
        Ok(h) => Some(h),
        Err(_) => None,
    }
}

/// Relies on bcrypt::verify: it fails exactly on hashes it cannot parse, and
/// otherwise reports whether the password matches the hash, a function of the
/// two arguments alone.
#[verifier::external_body]
pub(crate) fn bcrypt_check_password(password: &str, hash: &str) -> (r: Option<bool>)
    ensures
        (r is Some) == bcrypt_parses(hash@),
        r matches Some(b) ==> b == bcrypt_matches(password@, hash@),
{
    match bcrypt::verify(password, hash) {
        Ok(b) => Some(b),
        Err(_) => None,
    }
}

/// Relies on rand::random: a byte from the thread-local generator; nothing is
/// promised of its value.
#[verifier::external_body]
pub(crate) fn random_byte() -> u8 {
    rand::random::<u8>()
}

} // verus!
