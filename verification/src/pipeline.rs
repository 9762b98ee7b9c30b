use vstd::prelude::*;

use crate::outside::{
    bcrypt_check_password, bcrypt_hash_password, bcrypt_matches, bcrypt_parses, random_byte,
    regex_found, regex_match_str, regex_ok, regex_replace_str, regex_replaced,
};
use crate::value::{vview, Value, ValueV};

verus! {

/// One step of a field pipeline. Each step consumes the current value, may
/// read sibling fields, and produces a new value or a failure.
pub enum PipeStep {
    /// The current tick of the injected clock; advances it.
    Now,
    /// Replaces the value with whether it was null.
    IsNull,
    /// Adds a constant to an integer value.
    AddInt(i64),
    /// Prepends a constant to a string value.
    StrPrepend(String),
    /// Appends a constant to a string value.
    StrAppend(String),
    /// Validates a string value against a pattern; passes it through.
    RegexMatch(String),
    /// Replaces every match of the pattern in a string value.
    RegexReplace(String, String),
    /// Replaces the value with a fresh string of random decimal digits.
    RandomDigits(usize),
    /// Replaces the value with the named sibling field's current value.
    ObjectValueOf(String),
    /// Validates that a string value's length lies in the bounds; passes it through.
    LengthBetween(usize, usize),
    /// Replaces a string value with its salted hash.
    BcryptSalt,
    /// Verifies the (string) current value against the hash the subpipeline yields.
    BcryptVerify(Box<Pipeline>),
    /// Runs the second subpipeline only when the first yields a truthy value.
    IfThen(Box<Pipeline>, Box<Pipeline>),
}

/// An ordered sequence of steps.
pub struct Pipeline {
    pub steps: Vec<PipeStep>,
}

/// Why a pipeline failed.
#[derive(Clone, Copy, PartialEq, Eq, Structural, Debug)]
pub enum PipeErr {
    TypeMismatch,
    PatternMismatch,
    BadPattern,
    LengthOutOfBounds,
    MissingField,
    Overflow,
    HashFailed,
    CredentialMismatch,
}

/// Outcome of a pipeline run, at the specification level.
pub enum PipeOut {
    Val(ValueV),
    Fail(PipeErr),
}

/// The outcome an executor result denotes.
pub open spec fn out_of(r: Result<Value, PipeErr>) -> PipeOut {
    match r {
        Ok(v) => PipeOut::Val(vview(v)),
        Err(e) => PipeOut::Fail(e),
    }
}

/// The clock after one reading: it ticks, saturating at the machine bound.
pub open spec fn next_tick(c: int) -> int {
    if c == u64::MAX as int {
        c
    } else {
        c + 1
    }
}

/// A conditional's test result counts as taken unless null or false.
pub open spec fn truthy(v: ValueV) -> bool {
    !(v is Null) && v != ValueV::Bool(false)
}

/// Marks an intermediate outcome and clock; a trigger for the existentials
/// of the run relations.
pub open spec fn run_mid(o: PipeOut, cm: int) -> bool {
    true
}

/// Every character of the sequence is a decimal digit.
pub open spec fn all_digits(s: Seq<char>) -> bool {
    forall|i: int| 0 <= i < s.len() ==> '0' <= #[trigger] s[i] && s[i] <= '9'
}

/// What credential verification decides, given the candidate value and the
/// hash the subpipeline yielded.
pub open spec fn verdict_of(v: ValueV, h: ValueV, o: PipeOut) -> bool {
    match (v, h) {
        (ValueV::Str(pw), ValueV::Str(hs)) => if !bcrypt_parses(hs) {
            o == PipeOut::Fail(PipeErr::HashFailed)
        } else if bcrypt_matches(pw, hs) {
            o == PipeOut::Val(v)
        } else {
            o == PipeOut::Fail(PipeErr::CredentialMismatch)
        },
        _ => o == PipeOut::Fail(PipeErr::TypeMismatch),
    }
}

/// What one step does: it relates the value before, the sibling context and
/// the clock before to the outcome and the clock after. Steps that draw on
/// randomness or hashing admit several outcomes.
pub open spec fn step_runs(
    s: PipeStep,
    v: ValueV,
    ctx: Map<Seq<char>, ValueV>,
    c: int,
    o: PipeOut,
    c2: int,
) -> bool
    decreases s,
{
    match s {
        PipeStep::Now => o == PipeOut::Val(ValueV::DateTime(c)) && c2 == next_tick(c),
        PipeStep::IsNull => o == PipeOut::Val(ValueV::Bool(v is Null)) && c2 == c,
        PipeStep::AddInt(k) => c2 == c && match v {
            ValueV::Int(n) => if i64::MIN <= n + (k as int) <= i64::MAX {
                o == PipeOut::Val(ValueV::Int(n + (k as int)))
            } else {
                o == PipeOut::Fail(PipeErr::Overflow)
            },
            _ => o == PipeOut::Fail(PipeErr::TypeMismatch),
        },
        PipeStep::StrPrepend(p) => c2 == c && match v {
            ValueV::Str(t) => o == PipeOut::Val(ValueV::Str(p@ + t)),
            _ => o == PipeOut::Fail(PipeErr::TypeMismatch),
        },
        PipeStep::StrAppend(p) => c2 == c && match v {
            ValueV::Str(t) => o == PipeOut::Val(ValueV::Str(t + p@)),
            _ => o == PipeOut::Fail(PipeErr::TypeMismatch),
        },
        PipeStep::RegexMatch(p) => c2 == c && match v {
            ValueV::Str(t) => if !regex_ok(p@) {
                o == PipeOut::Fail(PipeErr::BadPattern)
            } else if regex_found(p@, t) {
                o == PipeOut::Val(v)
            } else {
                o == PipeOut::Fail(PipeErr::PatternMismatch)
            },
            _ => o == PipeOut::Fail(PipeErr::TypeMismatch),
        },
        PipeStep::RegexReplace(p, rep) => c2 == c && match v {
            ValueV::Str(t) => if regex_ok(p@) {
                o == PipeOut::Val(ValueV::Str(regex_replaced(p@, t, rep@)))
            } else {
                o == PipeOut::Fail(PipeErr::BadPattern)
            },
            _ => o == PipeOut::Fail(PipeErr::TypeMismatch),
        },
        PipeStep::RandomDigits(n) => c2 == c && (exists|d: Seq<char>|
            d.len() == n && #[trigger] all_digits(d) && o == PipeOut::Val(ValueV::Str(d))),
        PipeStep::ObjectValueOf(f) => c2 == c && if ctx.contains_key(f@) {
            o == PipeOut::Val(ctx[f@])
        } else {
            o == PipeOut::Fail(PipeErr::MissingField)
        },
        PipeStep::LengthBetween(lo, hi) => c2 == c && match v {
            ValueV::Str(t) => if lo as int <= t.len() <= hi as int {
                o == PipeOut::Val(v)
            } else {
                o == PipeOut::Fail(PipeErr::LengthOutOfBounds)
            },
            _ => o == PipeOut::Fail(PipeErr::TypeMismatch),
        },
        PipeStep::BcryptSalt => c2 == c && match v {
            ValueV::Str(pw) => o == PipeOut::Fail(PipeErr::HashFailed) || (exists|h: Seq<char>|
                bcrypt_matches(pw, h) && #[trigger] bcrypt_parses(h) && o == PipeOut::Val(
                    ValueV::Str(h),
                )),
            _ => o == PipeOut::Fail(PipeErr::TypeMismatch),
        },
        PipeStep::BcryptVerify(sub) => (o is Fail && pipe_runs(sub.steps@, v, ctx, c, o, c2)) || (
        exists|h: ValueV, cm: int|
            #[trigger] run_mid(PipeOut::Val(h), cm) && pipe_runs(
                sub.steps@,
                v,
                ctx,
                c,
                PipeOut::Val(h),
                cm,
            ) && c2 == cm && verdict_of(v, h, o)),
        PipeStep::IfThen(test, then) => (exists|e: PipeErr, cm: int|
            #[trigger] run_mid(PipeOut::Fail(e), cm) && pipe_runs(
                test.steps@,
                v,
                ctx,
                c,
                PipeOut::Fail(e),
                cm,
            ) && o == PipeOut::Val(v) && c2 == cm) || (exists|tv: ValueV, cm: int|
            #[trigger] run_mid(PipeOut::Val(tv), cm) && pipe_runs(
                test.steps@,
                v,
                ctx,
                c,
                PipeOut::Val(tv),
                cm,
            ) && if truthy(tv) {
                pipe_runs(then.steps@, v, ctx, cm, o, c2)
            } else {
                o == PipeOut::Val(v) && c2 == cm
            }),
    }
}

/// What a sequence of steps does, each consuming the previous step's output;
/// the first failure is the outcome of the whole.
pub open spec fn pipe_runs(
    steps: Seq<PipeStep>,
    v: ValueV,
    ctx: Map<Seq<char>, ValueV>,
    c: int,
    o: PipeOut,
    c2: int,
) -> bool
    decreases steps,
{
    if steps.len() == 0 {
        o == PipeOut::Val(v) && c2 == c
    } else {
        (o is Fail && step_runs(steps[0], v, ctx, c, o, c2)) || (exists|v1: ValueV, cm: int|
            #[trigger] run_mid(PipeOut::Val(v1), cm) && step_runs(
                steps[0],
                v,
                ctx,
                c,
                PipeOut::Val(v1),
                cm,
            ) && pipe_runs(steps.subrange(1, steps.len() as int), v1, ctx, cm, o, c2))
    }
}

} // verus!

verus! {

/// Whether the sibling context offers a key.
pub open spec fn ctx_has(names: Seq<Seq<char>>, key: Seq<char>) -> bool {
    exists|i: int| 0 <= i < names.len() && names[i] == key
}

/// The position of a key among the field names.
pub open spec fn ctx_idx(names: Seq<Seq<char>>, key: Seq<char>) -> int {
    choose|i: int| 0 <= i < names.len() && names[i] == key
}

/// The sibling context a field list and its values denote.
pub open spec fn ctx_of(names: Seq<Seq<char>>, vals: Seq<ValueV>) -> Map<Seq<char>, ValueV> {
    Map::new(|k: Seq<char>| ctx_has(names, k), |k: Seq<char>| vals[ctx_idx(names, k)])
}

/// No two fields share a name.
pub open spec fn distinct_names(names: Seq<Seq<char>>) -> bool {
    forall|i: int, j: int| 0 <= i < j < names.len() ==> names[i] != names[j]
}

/// The context of an executor call.
pub open spec fn ctx_from(names: &Vec<String>, vals: &Vec<Value>) -> Map<Seq<char>, ValueV> {
    ctx_of(names.deep_view(), crate::value::vview_seq(vals@))
}

/// Finds a field by name.
pub fn find_name(names: &Vec<String>, key: &String) -> (r: Option<usize>)
    ensures
        match r {
            Some(i) => i < names@.len() && names.deep_view()[i as int] == key@,
            None => !ctx_has(names.deep_view(), key@),
        },
{
    let mut j: usize = 0;
    while j < names.len()
        invariant
            0 <= j <= names@.len(),
            forall|i: int| 0 <= i < j ==> names.deep_view()[i] != key@,
        decreases names@.len() - j,
    {
        if names[j] == *key {
            return Some(j);
        }
        j = j + 1;
    }
    None
}

/// Reads a sibling field's current value from the context.
fn ctx_get(names: &Vec<String>, vals: &Vec<Value>, key: &String) -> (r: Option<Value>)
    requires
        names@.len() == vals@.len(),
        distinct_names(names.deep_view()),
    ensures
        match r {
            Some(v) => ctx_has(names.deep_view(), key@) && vview(v) == ctx_from(names, vals)[key@],
            None => !ctx_has(names.deep_view(), key@),
        },
{
    match find_name(names, key) {
        Some(i) => {
            proof {
                crate::value::lemma_vview_seq(vals@);
                let nv = names.deep_view();
                assert(ctx_has(nv, key@));
                let i0 = ctx_idx(nv, key@);
                assert(0 <= i0 < nv.len() && nv[i0] == key@);
                assert(i0 == i as int);
                assert(ctx_from(names, vals).contains_key(key@));
            }
            Some(vals[i].clone())
        },
        None => None,
    }
}

/// Whether a test outcome counts as taken.
pub fn is_truthy(v: &Value) -> (r: bool)
    ensures
        r == truthy(vview(*v)),
{
    match v {
        Value::Null => false,
        Value::Bool(b) => *b,
        _ => true,
    }
}

/// One decimal digit as text.
fn digit_str(d: u8) -> (r: &'static str)
    requires
        d < 10,
    ensures
        r@.len() == 1,
        '0' <= r@[0] && r@[0] <= '9',
{
    proof {
        reveal_strlit("0");
        reveal_strlit("1");
        reveal_strlit("2");
        reveal_strlit("3");
        reveal_strlit("4");
        reveal_strlit("5");
        reveal_strlit("6");
        reveal_strlit("7");
        reveal_strlit("8");
        reveal_strlit("9");
    }
    match d {
        0 => "0",
        1 => "1",
        2 => "2",
        3 => "3",
        4 => "4",
        5 => "5",
        6 => "6",
        7 => "7",
        8 => "8",
        _ => "9",
    }
}

/// A fresh string of random decimal digits.
fn random_digits_string(n: usize) -> (r: String)
    ensures
        r@.len() == n as int,
        all_digits(r@),
{
    let mut out = String::new();
    let mut j: usize = 0;
    while j < n
        invariant
            0 <= j <= n,
            out@.len() == j,
            all_digits(out@),
        decreases n - j,
    {
        let b = random_byte();
        let d = b % 10;
        let ds = digit_str(d);
        let ghost prev = out@;
        out.append(ds);
        proof {
            assert forall|i: int| 0 <= i < out@.len() implies '0' <= #[trigger] out@[i]
                && out@[i] <= '9' by {
                if i < prev.len() {
                    assert(out@[i] == prev[i]);
                } else {
                    assert(out@[i] == ds@[0]);
                }
            }
        }
        j = j + 1;
    }
    out
}

} // verus!

verus! {

/// Runs one step on the current value.
#[verifier::loop_isolation(false)]
fn run_step(
    s: &PipeStep,
    v: Value,
    names: &Vec<String>,
    vals: &Vec<Value>,
    clock: &mut u64,
) -> (r: Result<Value, PipeErr>)
    requires
        names@.len() == vals@.len(),
        distinct_names(names.deep_view()),
    ensures
        step_runs(
            *s,
            vview(v),
            ctx_from(names, vals),
            *old(clock) as int,
            out_of(r),
            *final(clock) as int,
        ),
    decreases *s, 0nat,
{
    let ghost c0 = *clock as int;
    let ghost ctx = ctx_from(names, vals);
    let ghost v0 = vview(v);
    match s {
        PipeStep::Now => {
            let t = *clock;
            if *clock < u64::MAX {
                *clock = *clock + 1;
            }
            Ok(Value::DateTime(t))
        },
        PipeStep::IsNull => {
            let b = v.is_null();
            Ok(Value::Bool(b))
        },
        PipeStep::AddInt(k) => match v {
            Value::Int(n) => match n.checked_add(*k) {
                Some(m) => Ok(Value::Int(m)),
                None => Err(PipeErr::Overflow),
            },
            _ => Err(PipeErr::TypeMismatch),
        },
        PipeStep::StrPrepend(p) => match v {
            Value::Str(t) => {
                let mut out = p.clone();
                out.append(t.as_str());
                Ok(Value::Str(out))
            },
            _ => Err(PipeErr::TypeMismatch),
        },
        PipeStep::StrAppend(p) => match v {
            Value::Str(mut t) => {
                t.append(p.as_str());
                Ok(Value::Str(t))
            },
            _ => Err(PipeErr::TypeMismatch),
        },
        PipeStep::RegexMatch(p) => match v {
            Value::Str(t) => match regex_match_str(p.as_str(), t.as_str()) {
                None => Err(PipeErr::BadPattern),
                Some(true) => Ok(Value::Str(t)),
                Some(false) => Err(PipeErr::PatternMismatch),
            },
            _ => Err(PipeErr::TypeMismatch),
        },
        PipeStep::RegexReplace(p, rep) => match v {
            Value::Str(t) => match regex_replace_str(p.as_str(), t.as_str(), rep.as_str()) {
                Some(out) => Ok(Value::Str(out)),
                None => Err(PipeErr::BadPattern),
            },
            _ => Err(PipeErr::TypeMismatch),
        },
        PipeStep::RandomDigits(n) => {
            let out = random_digits_string(*n);
            proof {
                assert(all_digits(out@) && out@.len() == *n as int);
            }
            Ok(Value::Str(out))
        },
        PipeStep::ObjectValueOf(f) => match ctx_get(names, vals, f) {
            Some(w) => Ok(w),
            None => Err(PipeErr::MissingField),
        },
        PipeStep::LengthBetween(lo, hi) => match v {
            Value::Str(t) => {
                let l = t.as_str().unicode_len();
                if *lo <= l && l <= *hi {
                    Ok(Value::Str(t))
                } else {
                    Err(PipeErr::LengthOutOfBounds)
                }
            },
            _ => Err(PipeErr::TypeMismatch),
        },
        PipeStep::BcryptSalt => match v {
            Value::Str(pw) => match bcrypt_hash_password(pw.as_str()) {
                Some(h) => {
                    proof {
                        assert(bcrypt_matches(pw@, h@) && bcrypt_parses(h@));
                    }
                    Ok(Value::Str(h))
                },
                None => Err(PipeErr::HashFailed),
            },
            _ => Err(PipeErr::TypeMismatch),
        },
        PipeStep::BcryptVerify(sub) => {
            proof {
                assert(decreases_to!(*s => *sub));
                assert(decreases_to!(*sub => sub.steps));
                assert(decreases_to!(sub.steps => sub.steps@));
            }
            let vc = v.clone();
            let sr = run_from(&sub.steps, 0, vc, names, vals, clock);
            let ghost cm = *clock as int;
            proof {
                assert(sub.steps@.subrange(0, sub.steps@.len() as int) =~= sub.steps@);
                assert(pipe_runs(sub.steps@, v0, ctx, c0, out_of(sr), cm));
            }
            match sr {
                Err(e) => {
                    proof {
                        lemma_bverify_fail(*s, v0, ctx, c0, e, cm);
                    }
                    Err(e)
                },
                Ok(h) => {
                    let ghost hv = vview(h);
                    proof {
                        assert(pipe_runs(sub.steps@, v0, ctx, c0, PipeOut::Val(hv), cm));
                    }
                    let out: Result<Value, PipeErr> = match (v, h) {
                        (Value::Str(pw), Value::Str(hs)) => match bcrypt_check_password(
                            pw.as_str(),
                            hs.as_str(),
                        ) {
                            None => Err(PipeErr::HashFailed),
                            Some(true) => Ok(Value::Str(pw)),
                            Some(false) => Err(PipeErr::CredentialMismatch),
                        },
                        _ => Err(PipeErr::TypeMismatch),
                    };
                    proof {
                        assert(verdict_of(v0, hv, out_of(out)));
                        lemma_bverify_verdict(*s, v0, ctx, c0, hv, cm, out_of(out));
                    }
                    out
                },
            }
        },
        PipeStep::IfThen(test, then) => {
            proof {
                assert(decreases_to!(*s => *test));
                assert(decreases_to!(*test => test.steps));
                assert(decreases_to!(test.steps => test.steps@));
                assert(decreases_to!(*s => *then));
                assert(decreases_to!(*then => then.steps));
                assert(decreases_to!(then.steps => then.steps@));
            }
            let vt = v.clone();
            let tr = run_from(&test.steps, 0, vt, names, vals, clock);
            let ghost cm = *clock as int;
            proof {
                assert(test.steps@.subrange(0, test.steps@.len() as int) =~= test.steps@);
                assert(pipe_runs(test.steps@, v0, ctx, c0, out_of(tr), cm));
            }
            match tr {
                Err(e) => {
                    proof {
                        assert(pipe_runs(test.steps@, v0, ctx, c0, PipeOut::Fail(e), cm));
                        lemma_ifthen_testfail(*s, v0, ctx, c0, e, cm);
                    }
                    Ok(v)
                },
                Ok(tv) => {
                    let ghost tvv = vview(tv);
                    proof {
                        assert(pipe_runs(test.steps@, v0, ctx, c0, PipeOut::Val(tvv), cm));
                    }
                    let taken = is_truthy(&tv);
                    if taken {
                        let r2 = run_from(&then.steps, 0, v, names, vals, clock);
                        proof {
                            assert(then.steps@.subrange(0, then.steps@.len() as int)
                                =~= then.steps@);
                            lemma_ifthen_taken(
                                *s,
                                v0,
                                ctx,
                                c0,
                                tvv,
                                cm,
                                out_of(r2),
                                *clock as int,
                            );
                        }
                        r2
                    } else {
                        proof {
                            lemma_ifthen_untaken(*s, v0, ctx, c0, tvv, cm);
                        }
                        Ok(v)
                    }
                },
            }
        },
    }
}

/// Runs the steps from a position onward, each consuming the previous output.
#[verifier::loop_isolation(false)]
fn run_from(
    steps: &Vec<PipeStep>,
    i: usize,
    v: Value,
    names: &Vec<String>,
    vals: &Vec<Value>,
    clock: &mut u64,
) -> (r: Result<Value, PipeErr>)
    requires
        i <= steps@.len(),
        names@.len() == vals@.len(),
        distinct_names(names.deep_view()),
    ensures
        pipe_runs(
            steps@.subrange(i as int, steps@.len() as int),
            vview(v),
            ctx_from(names, vals),
            *old(clock) as int,
            out_of(r),
            *final(clock) as int,
        ),
    decreases steps@, steps@.len() - i,
{
    let ghost c0 = *clock as int;
    let ghost ctx = ctx_from(names, vals);
    let ghost sub = steps@.subrange(i as int, steps@.len() as int);
    if i == steps.len() {
        Ok(v)
    } else {
        proof {
            assert(decreases_to!(steps@ => steps@[i as int]));
        }
        let ghost v0 = vview(v);
        let sr = run_step(&steps[i], v, names, vals, clock);
        let ghost cm = *clock as int;
        proof {
            assert(step_runs(steps@[i as int], v0, ctx, c0, out_of(sr), cm));
            assert(sub[0] == steps@[i as int]);
        }
        match sr {
            Err(e) => {
                proof {
                    assert(step_runs(sub[0], v0, ctx, c0, PipeOut::Fail(e), cm));
                    assert(pipe_runs(sub, v0, ctx, c0, PipeOut::Fail(e), cm));
                }
                Err(e)
            },
            Ok(v1) => {
                let ghost v1v = vview(v1);
                let r2 = run_from(steps, i + 1, v1, names, vals, clock);
                proof {
                    let cf = *clock as int;
                    assert(pipe_runs(
                        steps@.subrange(i as int + 1, steps@.len() as int),
                        v1v,
                        ctx,
                        cm,
                        out_of(r2),
                        cf,
                    ));
                    assert(sub.subrange(1, sub.len() as int) =~= steps@.subrange(
                        i as int + 1,
                        steps@.len() as int,
                    ));
                    assert(pipe_runs(sub.subrange(1, sub.len() as int), v1v, ctx, cm, out_of(r2), cf));
                    assert(step_runs(sub[0], v0, ctx, c0, PipeOut::Val(v1v), cm));
                    lemma_pipe_cons_ok(sub, v0, v1v, ctx, c0, cm, out_of(r2), cf);
                }
                r2
            },
        }
    }
}

/// Runs a whole pipeline on a value in the given sibling context: the result
/// is an outcome the step semantics admit, with no partial effect on failure.
pub fn run_pipe(
    p: &Pipeline,
    v: Value,
    names: &Vec<String>,
    vals: &Vec<Value>,
    clock: &mut u64,
) -> (r: Result<Value, PipeErr>)
    requires
        names@.len() == vals@.len(),
        distinct_names(names.deep_view()),
    ensures
        pipe_runs(
            p.steps@,
            vview(v),
            ctx_from(names, vals),
            *old(clock) as int,
            out_of(r),
            *final(clock) as int,
        ),
{
    let r = run_from(&p.steps, 0, v, names, vals, clock);
    proof {
        assert(p.steps@.subrange(0, p.steps@.len() as int) =~= p.steps@);
    }
    r
}

} // verus!

verus! {

/// A successful first step followed by a run of the rest is a run of the whole.
pub proof fn lemma_pipe_cons_ok(
    s: Seq<PipeStep>,
    v: ValueV,
    v1: ValueV,
    ctx: Map<Seq<char>, ValueV>,
    c: int,
    cm: int,
    o: PipeOut,
    c2: int,
)
    requires
        s.len() > 0,
        step_runs(s[0], v, ctx, c, PipeOut::Val(v1), cm),
        pipe_runs(s.subrange(1, s.len() as int), v1, ctx, cm, o, c2),
    ensures
        pipe_runs(s, v, ctx, c, o, c2),
{
    assert(run_mid(PipeOut::Val(v1), cm));
}

/// A failing subpipeline makes credential verification fail the same way.
pub proof fn lemma_bverify_fail(
    s: PipeStep,
    v: ValueV,
    ctx: Map<Seq<char>, ValueV>,
    c: int,
    e: PipeErr,
    cm: int,
)
    requires
        s matches PipeStep::BcryptVerify(sub) && pipe_runs(
            sub.steps@,
            v,
            ctx,
            c,
            PipeOut::Fail(e),
            cm,
        ),
    ensures
        step_runs(s, v, ctx, c, PipeOut::Fail(e), cm),
{
}

/// A successful subpipeline hands its hash to the verification verdict.
pub proof fn lemma_bverify_verdict(
    s: PipeStep,
    v: ValueV,
    ctx: Map<Seq<char>, ValueV>,
    c: int,
    h: ValueV,
    cm: int,
    o: PipeOut,
)
    requires
        s matches PipeStep::BcryptVerify(sub) && pipe_runs(
            sub.steps@,
            v,
            ctx,
            c,
            PipeOut::Val(h),
            cm,
        ),
        verdict_of(v, h, o),
    ensures
        step_runs(s, v, ctx, c, o, cm),
{
    assert(run_mid(PipeOut::Val(h), cm));
}

/// A failing test leaves the value unchanged.
pub proof fn lemma_ifthen_testfail(
    s: PipeStep,
    v: ValueV,
    ctx: Map<Seq<char>, ValueV>,
    c: int,
    e: PipeErr,
    cm: int,
)
    requires
        s matches PipeStep::IfThen(test, then) && pipe_runs(
            test.steps@,
            v,
            ctx,
            c,
            PipeOut::Fail(e),
            cm,
        ),
    ensures
        step_runs(s, v, ctx, c, PipeOut::Val(v), cm),
{
    assert(run_mid(PipeOut::Fail(e), cm));
}

/// An untaken branch leaves the value unchanged.
pub proof fn lemma_ifthen_untaken(
    s: PipeStep,
    v: ValueV,
    ctx: Map<Seq<char>, ValueV>,
    c: int,
    tv: ValueV,
    cm: int,
)
    requires
        s matches PipeStep::IfThen(test, then) && pipe_runs(
            test.steps@,
            v,
            ctx,
            c,
            PipeOut::Val(tv),
            cm,
        ),
        !truthy(tv),
    ensures
        step_runs(s, v, ctx, c, PipeOut::Val(v), cm),
{
    assert(run_mid(PipeOut::Val(tv), cm));
}

/// A taken branch runs on the original value.
pub proof fn lemma_ifthen_taken(
    s: PipeStep,
    v: ValueV,
    ctx: Map<Seq<char>, ValueV>,
    c: int,
    tv: ValueV,
    cm: int,
    o: PipeOut,
    c2: int,
)
    requires
        s matches PipeStep::IfThen(test, then) && pipe_runs(
            test.steps@,
            v,
            ctx,
            c,
            PipeOut::Val(tv),
            cm,
        ) && pipe_runs(then.steps@, v, ctx, cm, o, c2),
        truthy(tv),
    ensures
        step_runs(s, v, ctx, c, o, c2),
{
    assert(run_mid(PipeOut::Val(tv), cm));
}

} // verus!
