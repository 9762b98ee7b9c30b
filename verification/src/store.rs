use vstd::prelude::*;

use crate::value::{value_eq, vview, vview_seq, Value, ValueV};

verus! {

/// A persisted record: a model name, a store-assigned identifier, and the
/// persisted field names with their values.
pub struct Rec {
    pub model: String,
    pub rec_id: u64,
    pub names: Vec<String>,
    pub vals: Vec<Value>,
}

/// Mathematical model of a record.
pub struct RecV {
    pub model: Seq<char>,
    pub rec_id: int,
    pub names: Seq<Seq<char>>,
    pub vals: Seq<ValueV>,
}

/// Abstraction of a record.
pub open spec fn rec_view(r: Rec) -> RecV {
    RecV {
        model: r.model@,
        rec_id: r.rec_id as int,
        names: r.names.deep_view(),
        vals: vview_seq(r.vals@),
    }
}

/// The in-memory persistence layer: the saved records, the identifier
/// fountain, and the injected clock that `Now` pipeline steps read.
pub struct Store {
    pub recs: Vec<Rec>,
    pub next_id: u64,
    pub clock: u64,
}

/// Abstraction of the record list.
pub open spec fn recs_view(recs: Seq<Rec>) -> Seq<RecV> {
    Seq::new(recs.len(), |i: int| rec_view(recs[i]))
}

/// A record holds the given value under the given field name.
pub open spec fn rec_has_value(r: RecV, fname: Seq<char>, v: ValueV) -> bool {
    exists|j: int|
        0 <= j < r.names.len() && j < r.vals.len() && r.names[j] == fname && #[trigger] r.vals[j]
            == v
}

/// Some other record of the model already holds this value in this field.
pub open spec fn store_conflict(
    recs: Seq<RecV>,
    model: Seq<char>,
    fname: Seq<char>,
    v: ValueV,
    excl: Option<u64>,
) -> bool {
    exists|i: int|
        0 <= i < recs.len() && (#[trigger] recs[i]).model == model && (excl matches Some(id)
            ==> recs[i].rec_id != id as int) && rec_has_value(recs[i], fname, v)
}

impl Store {
    /// An empty store.
    pub fn new() -> (r: Store)
        ensures
            recs_view(r.recs@).len() == 0,
            r.next_id == 1,
            r.clock == 1,
    {
        Store { recs: Vec::new(), next_id: 1, clock: 1 }
    }

    /// Whether a persisted record other than the excluded one holds the value
    /// under the field name, for the model.
    #[verifier::loop_isolation(false)]
    pub fn has_conflict(&self, model: &String, fname: &String, v: &Value, excl: Option<u64>) -> (r:
        bool)
        ensures
            r == store_conflict(recs_view(self.recs@), model@, fname@, vview(*v), excl),
    {
        let ghost rv = recs_view(self.recs@);
        let mut i: usize = 0;
        while i < self.recs.len()
            invariant
                0 <= i <= self.recs@.len(),
                rv == recs_view(self.recs@),
                forall|k: int|
                    0 <= k < i ==> !((#[trigger] rv[k]).model == model@ && (excl matches Some(id)
                        ==> rv[k].rec_id != id as int) && rec_has_value(rv[k], fname@, vview(*v))),
            decreases self.recs@.len() - i,
        {
            let rec = &self.recs[i];
            let excluded = match excl {
                Some(id) => rec.rec_id == id,
                None => false,
            };
            if rec.model == *model && !excluded {
                proof {
                    crate::value::lemma_vview_seq(rec.vals@);
                }
                let mut j: usize = 0;
                while j < rec.names.len()
                    invariant
                        0 <= j <= rec.names@.len(),
                        rv == recs_view(self.recs@),
                        0 <= i < self.recs@.len(),
                        rec == self.recs@[i as int],
                        forall|t: int|
                            0 <= t < j ==> !(rv[i as int].names[t] == fname@ && t < rv[i as int].vals.len()
                                && #[trigger] rv[i as int].vals[t] == vview(*v)),
                    decreases rec.names@.len() - j,
                {
                    if rec.names[j] == *fname && j < rec.vals.len() {
                        if value_eq(&rec.vals[j], v) {
                            proof {
                                assert(rv[i as int].names[j as int] == fname@);
                                assert(rv[i as int].vals[j as int] == vview(*v));
                                assert(rec_has_value(rv[i as int], fname@, vview(*v)));
                            }
                            return true;
                        }
                    }
                    j = j + 1;
                }
            }
            i = i + 1;
        }
        false
    }

    /// Appends a fresh record for the model, drawing a new identifier.
    pub fn insert(&mut self, model: &String, names: Vec<String>, vals: Vec<Value>) -> (rid: u64)
        requires
            old(self).next_id < u64::MAX,
        ensures
            rid == old(self).next_id,
            final(self).next_id == old(self).next_id + 1,
            final(self).clock == old(self).clock,
            recs_view(final(self).recs@) == recs_view(old(self).recs@).push(
                RecV {
                    model: model@,
                    rec_id: rid as int,
                    names: names.deep_view(),
                    vals: vview_seq(vals@),
                },
            ),
    {
        let ghost names0 = names.deep_view();
        let ghost vals0 = vview_seq(vals@);
        let rid = self.next_id;
        self.next_id = self.next_id + 1;
        self.recs.push(Rec { model: model.clone(), rec_id: rid, names, vals });
        proof {
            assert(recs_view(self.recs@) =~= recs_view(old(self).recs@).push(
                RecV { model: model@, rec_id: rid as int, names: names0, vals: vals0 },
            ));
        }
        rid
    }

    /// Replaces the record bearing the identifier, where it is persisted;
    /// without it the store is unchanged.
    #[verifier::loop_isolation(false)]
    pub fn replace(&mut self, rid: u64, model: &String, names: Vec<String>, vals: Vec<Value>)
        ensures
            final(self).next_id == old(self).next_id,
            final(self).clock == old(self).clock,
            (exists|i: int|
                0 <= i < old(self).recs@.len() && (#[trigger] recs_view(old(self).recs@)[i]).rec_id
                    == rid as int && recs_view(final(self).recs@) == recs_view(
                    old(self).recs@,
                ).update(
                    i,
                    RecV {
                        model: model@,
                        rec_id: rid as int,
                        names: names.deep_view(),
                        vals: vview_seq(vals@),
                    },
                )) || ((forall|i: int|
                0 <= i < old(self).recs@.len() ==> (#[trigger] recs_view(old(self).recs@)[i]).rec_id
                    != rid as int) && final(self).recs == old(self).recs),
    {
        let ghost names0 = names.deep_view();
        let ghost vals0 = vview_seq(vals@);
        let mut i: usize = 0;
        while i < self.recs.len()
            invariant
                0 <= i <= self.recs@.len(),
                self.recs == old(self).recs,
                self.next_id == old(self).next_id,
                self.clock == old(self).clock,
                forall|k: int|
                    0 <= k < i ==> (#[trigger] recs_view(old(self).recs@)[k]).rec_id != rid as int,
            decreases self.recs@.len() - i,
        {
            if self.recs[i].rec_id == rid {
                let ghost k = i as int;
                proof {
                    assert((recs_view(old(self).recs@)[k]).rec_id == rid as int);
                }
                self.recs.set(
                    i,
                    Rec { model: model.clone(), rec_id: rid, names, vals },
                );
                proof {
                    assert(recs_view(self.recs@) =~= recs_view(old(self).recs@).update(
                        k,
                        RecV { model: model@, rec_id: rid as int, names: names0, vals: vals0 },
                    ));
                }
                return ;
            }
            i = i + 1;
        }
    }
}

} // verus!
