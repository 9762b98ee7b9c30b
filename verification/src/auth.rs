use vstd::prelude::*;

use crate::object::{model_field_names, model_ok, obj_fits, Object};
use crate::pipeline::{ctx_from, ctx_of, pipe_runs, run_mid, run_pipe, PipeErr, PipeOut};
use crate::schema::{field_names, ModelDef};
use crate::store::{rec_has_value, recs_view, RecV, Store};
use crate::value::{lemma_vview_seq, value_eq, vview, vview_seq, Value, ValueV};
use crate::Lifecycle;

verus! {

/// Authentication failure. Deliberately opaque: an unknown identity and a
/// refused credential are indistinguishable to the caller.
#[derive(Clone, Copy, PartialEq, Eq, Structural, Debug)]
pub struct AuthError;

/// Any two authentication failures are the same value: nothing about the
/// cause is exposed.
pub proof fn lemma_auth_error_opaque(a: AuthError, b: AuthError)
    ensures
        a == b,
{
}

/// A record holds a field of this name (with a value in range).
pub open spec fn rec_has_field(r: RecV, fname: Seq<char>) -> bool {
    exists|j: int| 0 <= j < r.names.len() && j < r.vals.len() && #[trigger] r.names[j] == fname
}

/// A persisted record of the model holds the identity value in the field.
pub open spec fn is_identity_match(
    rv: Seq<RecV>,
    i: int,
    mname: Seq<char>,
    fname: Seq<char>,
    v: ValueV,
) -> bool {
    0 <= i < rv.len() && rv[i].model == mname && rec_has_value(rv[i], fname, v)
}

/// An object's values were loaded from a record: persisted fields carry the
/// record's values, the rest are null.
pub open spec fn loaded_from(m: ModelDef, r: RecV, vals: Seq<ValueV>) -> bool {
    vals.len() == m.fields@.len() && forall|i: int|
        0 <= i < vals.len() ==> (rec_has_value(r, m.fields@[i].name@, #[trigger] vals[i]) || (
        vals[i] is Null && !rec_has_field(r, m.fields@[i].name@)))
}

/// Marks the chosen identity field, credential field and record; a trigger.
pub open spec fn auth_mid(fi: int, ci: int, ri: int) -> bool {
    true
}

/// Marks the loaded values and a failed verification; a trigger.
pub open spec fn auth_fail_mid(lv: Seq<ValueV>, e: PipeErr, cm: int) -> bool {
    true
}

/// Reads one field's value out of a record, null where it is absent.
#[verifier::loop_isolation(false)]
fn rec_lookup(store: &Store, i: usize, fname: &String) -> (r: Value)
    requires
        i < store.recs@.len(),
    ensures
        rec_has_value(recs_view(store.recs@)[i as int], fname@, vview(r)) || (vview(r) is Null
            && !rec_has_field(recs_view(store.recs@)[i as int], fname@)),
{
    let rec = &store.recs[i];
    let ghost rv = recs_view(store.recs@)[i as int];
    proof {
        lemma_vview_seq(rec.vals@);
    }
    let mut j: usize = 0;
    while j < rec.names.len()
        invariant
            0 <= j <= rec.names@.len(),
            forall|t: int| 0 <= t < j ==> !(#[trigger] rv.names[t] == fname@ && t < rv.vals.len()),
        decreases rec.names@.len() - j,
    {
        if rec.names[j] == *fname && j < rec.vals.len() {
            let v = rec.vals[j].clone();
            proof {
                assert(rv.names[j as int] == fname@ && rv.vals[j as int] == vview(v));
            }
            return v;
        }
        j = j + 1;
    }
    Value::Null
}

/// Rebuilds a saved object from a persisted record of the model.
#[verifier::loop_isolation(false)]
fn load_object(store: &Store, i: usize, m: &ModelDef, rid: u64) -> (r: Object)
    requires
        i < store.recs@.len(),
    ensures
        obj_fits(r, *m),
        loaded_from(*m, recs_view(store.recs@)[i as int], vview_seq(r.values@)),
        r.state == Lifecycle::Saved,
        r.saved_once,
        r.rec_id == Some(rid),
{
    let ghost rv = recs_view(store.recs@)[i as int];
    let mut values: Vec<Value> = Vec::new();
    let mut dirty: Vec<bool> = Vec::new();
    let mut j: usize = 0;
    while j < m.fields.len()
        invariant
            0 <= j <= m.fields@.len(),
            values@.len() == j,
            dirty@.len() == j,
            forall|t: int|
                0 <= t < j ==> (rec_has_value(rv, m.fields@[t].name@, vview(#[trigger] values@[t]))
                    || (vview(values@[t]) is Null && !rec_has_field(rv, m.fields@[t].name@))),
        decreases m.fields@.len() - j,
    {
        let v = rec_lookup(store, i, &m.fields[j].name);
        values.push(v);
        dirty.push(false);
        j = j + 1;
    }
    proof {
        lemma_vview_seq(values@);
    }
    Object { values, dirty, state: Lifecycle::Saved, saved_once: true, rec_id: Some(rid) }
}

/// Finds a record of the model holding the value in the field.
#[verifier::loop_isolation(false)]
fn find_record(store: &Store, mname: &String, fname: &String, v: &Value) -> (r: Option<usize>)
    ensures
        match r {
            Some(i) => is_identity_match(
                recs_view(store.recs@),
                i as int,
                mname@,
                fname@,
                vview(*v),
            ),
            None => forall|ri: int|
                0 <= ri < recs_view(store.recs@).len() ==> !is_identity_match(
                    recs_view(store.recs@),
                    ri,
                    mname@,
                    fname@,
                    vview(*v),
                ),
        },
{
    let ghost rv = recs_view(store.recs@);
    let mut i: usize = 0;
    while i < store.recs.len()
        invariant
            0 <= i <= store.recs@.len(),
            forall|k: int| 0 <= k < i ==> !is_identity_match(rv, k, mname@, fname@, vview(*v)),
        decreases store.recs@.len() - i,
    {
        let rec = &store.recs[i];
        if rec.model == *mname {
            proof {
                lemma_vview_seq(rec.vals@);
            }
            let mut j: usize = 0;
            while j < rec.names.len()
                invariant
                    0 <= j <= rec.names@.len(),
                    0 <= i < store.recs@.len(),
                    rec == store.recs@[i as int],
                    forall|t: int|
                        0 <= t < j ==> !(rv[i as int].names[t] == fname@
                            && t < rv[i as int].vals.len()
                            && #[trigger] rv[i as int].vals[t] == vview(*v)),
                decreases rec.names@.len() - j,
            {
                if rec.names[j] == *fname && j < rec.vals.len() {
                    if value_eq(&rec.vals[j], v) {
                        proof {
                            assert(rv[i as int].names[j as int] == fname@);
                            assert(rv[i as int].vals[j as int] == vview(*v));
                            assert(rec_has_value(rv[i as int], fname@, vview(*v)));
                        }
                        return Some(i);
                    }
                }
                j = j + 1;
            }
            proof {
                assert(!rec_has_value(rv[i as int], fname@, vview(*v)));
            }
        }
        i = i + 1;
    }
    None
}

/// Looks up a principal by its identity value and verifies the candidate
/// credential through the credential field's pipeline, with the candidate as
/// the pipeline's input and the loaded object as its sibling context.
/// Success returns the matched object; every failure returns the same
/// opaque error.
#[verifier::loop_isolation(false)]
pub fn verify_identity(m: &ModelDef, store: &mut Store, identity: &Value, credential: Value) -> (r:
    Result<Object, AuthError>)
    requires
        model_ok(*m),
    ensures
        final(store).recs == old(store).recs,
        final(store).next_id == old(store).next_id,
        r matches Ok(obj) ==> exists|fi: int, ci: int, ri: int|
            #[trigger] auth_mid(fi, ci, ri) && 0 <= fi < m.fields@.len()
                && m.fields@[fi].auth_identity && 0 <= ci < m.fields@.len()
                && m.fields@[ci].auth_by is Some && is_identity_match(
                recs_view(old(store).recs@),
                ri,
                m.name@,
                m.fields@[fi].name@,
                vview(*identity),
            ) && obj_fits(obj, *m) && loaded_from(
                *m,
                recs_view(old(store).recs@)[ri],
                vview_seq(obj.values@),
            ) && obj.state == Lifecycle::Saved && obj.saved_once && (exists|nv: ValueV, cm: int|
                #[trigger] run_mid(PipeOut::Val(nv), cm) && pipe_runs(
                    m.fields@[ci].auth_by->Some_0.steps@,
                    vview(credential),
                    ctx_of(field_names(m.fields@), vview_seq(obj.values@)),
                    old(store).clock as int,
                    PipeOut::Val(nv),
                    cm,
                ) && final(store).clock as int == cm),
        r is Err ==> ((forall|fi: int|
            0 <= fi < m.fields@.len() ==> !(#[trigger] m.fields@[fi]).auth_identity) || (forall|
            ci: int,
        |
            0 <= ci < m.fields@.len() ==> !((#[trigger] m.fields@[ci]).auth_by is Some)) || (exists|
            fi: int,
        |
            0 <= fi < m.fields@.len() && (#[trigger] m.fields@[fi]).auth_identity && (forall|
                ri: int,
            |
                0 <= ri < recs_view(old(store).recs@).len() ==> !is_identity_match(
                    recs_view(old(store).recs@),
                    ri,
                    m.name@,
                    m.fields@[fi].name@,
                    vview(*identity),
                ))) || (exists|fi: int, ci: int, ri: int|
            #[trigger] auth_mid(fi, ci, ri) && 0 <= fi < m.fields@.len()
                && m.fields@[fi].auth_identity && 0 <= ci < m.fields@.len()
                && m.fields@[ci].auth_by is Some && is_identity_match(
                recs_view(old(store).recs@),
                ri,
                m.name@,
                m.fields@[fi].name@,
                vview(*identity),
            ) && (exists|lv: Seq<ValueV>, e: PipeErr, cm: int|
                #[trigger] auth_fail_mid(lv, e, cm) && loaded_from(
                    *m,
                    recs_view(old(store).recs@)[ri],
                    lv,
                ) && pipe_runs(
                    m.fields@[ci].auth_by->Some_0.steps@,
                    vview(credential),
                    ctx_of(field_names(m.fields@), lv),
                    old(store).clock as int,
                    PipeOut::Fail(e),
                    cm,
                )))),
{
    let ghost rv = recs_view(store.recs@);
    let mut fi_found: Option<usize> = None;
    let mut j: usize = 0;
    while j < m.fields.len()
        invariant
            0 <= j <= m.fields@.len(),
            match fi_found {
                Some(f) => f < m.fields@.len() && m.fields@[f as int].auth_identity,
                None => forall|t: int| 0 <= t < j ==> !(#[trigger] m.fields@[t]).auth_identity,
            },
        decreases m.fields@.len() - j,
    {
        if fi_found.is_none() && m.fields[j].auth_identity {
            fi_found = Some(j);
        }
        j = j + 1;
    }
    let fi = match fi_found {
        Some(f) => f,
        None => {
            return Err(AuthError);
        },
    };
    let mut ci_found: Option<usize> = None;
    let mut j: usize = 0;
    while j < m.fields.len()
        invariant
            0 <= j <= m.fields@.len(),
            match ci_found {
                Some(f) => f < m.fields@.len() && m.fields@[f as int].auth_by is Some,
                None => forall|t: int| 0 <= t < j ==> !((#[trigger] m.fields@[t]).auth_by is Some),
            },
        decreases m.fields@.len() - j,
    {
        if ci_found.is_none() && m.fields[j].auth_by.is_some() {
            ci_found = Some(j);
        }
        j = j + 1;
    }
    let ci = match ci_found {
        Some(f) => f,
        None => {
            return Err(AuthError);
        },
    };
    let ri = match find_record(store, &m.name, &m.fields[fi].name, identity) {
        Some(i) => i,
        None => {
            proof {
                assert((fi as int) < m.fields@.len() && m.fields@[fi as int].auth_identity);
            }
            return Err(AuthError);
        },
    };
    let rid = store.recs[ri].rec_id;
    let obj = load_object(store, ri, m, rid);
    let names = model_field_names(m);
    let ghost cred_v = vview(credential);
    let ghost lv = vview_seq(obj.values@);
    match &m.fields[ci].auth_by {
        Some(p) => {
            let sr = run_pipe(p, credential, &names, &obj.values, &mut store.clock);
            let ghost cm = store.clock as int;
            proof {
                assert(ctx_from(&names, &obj.values) == ctx_of(field_names(m.fields@), lv));
            }
            match sr {
                Ok(nv) => {
                    proof {
                        assert(auth_mid(fi as int, ci as int, ri as int));
                        assert(run_mid(PipeOut::Val(vview(nv)), cm));
                        assert(pipe_runs(
                            m.fields@[ci as int].auth_by->Some_0.steps@,
                            cred_v,
                            ctx_of(field_names(m.fields@), lv),
                            old(store).clock as int,
                            PipeOut::Val(vview(nv)),
                            cm,
                        ));
                    }
                    Ok(obj)
                },
                Err(e) => {
                    proof {
                        assert(auth_mid(fi as int, ci as int, ri as int));
                        assert(auth_fail_mid(lv, e, cm));
                        assert(pipe_runs(
                            m.fields@[ci as int].auth_by->Some_0.steps@,
                            cred_v,
                            ctx_of(field_names(m.fields@), lv),
                            old(store).clock as int,
                            PipeOut::Fail(e),
                            cm,
                        ));
                    }
                    Err(AuthError)
                },
            }
        },
        None => Err(AuthError),
    }
}

} // verus!
