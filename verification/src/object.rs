use vstd::prelude::*;

use crate::pipeline::{
    ctx_from, ctx_of, distinct_names, pipe_runs, run_mid, run_pipe, PipeErr, PipeOut,
};
use crate::schema::{field_names, has_field, FieldDef, FieldDefault, HookAction, ModelDef};
use crate::store::{recs_view, store_conflict, RecV, Store};
use crate::value::{
    check_conforms, clone_values, conforms, lemma_vview_seq, lemma_vview_update, vview, vview_seq,
    Value, ValueV,
};
use crate::Lifecycle;

verus! {

/// Why a field access or assignment was refused.
#[derive(Clone, Copy, PartialEq, Eq, Structural, Debug)]
pub enum FieldError {
    /// The model has no field of this name.
    UnknownField,
    /// The field is readonly: external assignment is always refused.
    NotWritable,
    /// The field is write-once and already holds a non-null value.
    AlreadySet,
    /// The field is writeonly or internal: its value is never handed out.
    NotReadable,
    /// The assigned value does not conform to the declared type.
    Mismatch,
    /// The on-set pipeline refused the value.
    Validation(PipeErr),
}

/// The position of a field name in a field list.
pub open spec fn fidx(fields: Seq<FieldDef>, name: Seq<char>) -> int {
    choose|i: int| 0 <= i < fields.len() && fields[i].name@ == name
}

/// A live instance of a model.
pub struct Object {
    pub values: Vec<Value>,
    pub dirty: Vec<bool>,
    pub state: Lifecycle,
    pub saved_once: bool,
    pub rec_id: Option<u64>,
}

/// The object fits its model: one value and one dirty mark per field.
pub open spec fn obj_fits(o: Object, m: ModelDef) -> bool {
    o.values@.len() == m.fields@.len() && o.dirty@.len() == m.fields@.len()
}

/// What object methods need of a model: distinct field names, as
/// `Graph::build` establishes for every model it accepts.
pub open spec fn model_ok(m: ModelDef) -> bool {
    distinct_names(field_names(m.fields@))
}

/// Finds the position of a field by name.
#[verifier::loop_isolation(false)]
pub fn field_index(m: &ModelDef, name: &String) -> (r: Option<usize>)
    requires
        model_ok(*m),
    ensures
        match r {
            Some(i) => has_field(m.fields@, name@) && i as int == fidx(m.fields@, name@) && i
                < m.fields@.len() && m.fields@[i as int].name@ == name@,
            None => !has_field(m.fields@, name@),
        },
{
    let mut j: usize = 0;
    while j < m.fields.len()
        invariant
            0 <= j <= m.fields@.len(),
            forall|i: int| 0 <= i < j ==> m.fields@[i].name@ != name@,
        decreases m.fields@.len() - j,
    {
        if m.fields[j].name == *name {
            proof {
                assert(has_field(m.fields@, name@));
                let i0 = fidx(m.fields@, name@);
                assert(0 <= i0 < m.fields@.len() && m.fields@[i0].name@ == name@);
                assert(field_names(m.fields@)[i0] == name@);
                assert(field_names(m.fields@)[j as int] == name@);
                assert(i0 == j as int);
            }
            return Some(j);
        }
        j = j + 1;
    }
    None
}


/// What refusing an assignment means: the error says why, and the clock
/// stands where the on-set pipeline left it.
pub open spec fn set_refused(
    f: FieldDef,
    v: ValueV,
    ctx: Map<Seq<char>, ValueV>,
    c0: int,
    c2: int,
    e: FieldError,
) -> bool {
    match e {
        FieldError::Validation(pe) => exists|cm: int|
            #[trigger] run_mid(PipeOut::Fail(pe), cm) && pipe_runs(
                f.on_set.steps@,
                v,
                ctx,
                c0,
                PipeOut::Fail(pe),
                cm,
            ) && c2 == cm,
        FieldError::Mismatch => exists|nv: ValueV, cm: int|
            #[trigger] run_mid(PipeOut::Val(nv), cm) && pipe_runs(
                f.on_set.steps@,
                v,
                ctx,
                c0,
                PipeOut::Val(nv),
                cm,
            ) && !conforms(nv, f.kind, f.optional) && c2 == cm,
        _ => false,
    }
}

/// What a permitted assignment does: the on-set pipeline ran on the value,
/// its conforming output was stored and the field marked dirty, or the
/// assignment was refused for a stated reason.
pub open spec fn set_ran(
    f: FieldDef,
    v: ValueV,
    ctx: Map<Seq<char>, ValueV>,
    i: int,
    vals0: Seq<ValueV>,
    dirty0: Seq<bool>,
    c0: int,
    vals2: Seq<ValueV>,
    dirty2: Seq<bool>,
    c2: int,
    r: Result<(), FieldError>,
) -> bool {
    &&& (r is Ok ==> exists|nv: ValueV, cm: int|
        #[trigger] run_mid(PipeOut::Val(nv), cm) && pipe_runs(
            f.on_set.steps@,
            v,
            ctx,
            c0,
            PipeOut::Val(nv),
            cm,
        ) && conforms(nv, f.kind, f.optional) && vals2 == vals0.update(i, nv) && c2 == cm && dirty2
            == dirty0.update(i, true))
    &&& (r matches Err(e) ==> set_refused(f, v, ctx, c0, c2, e))
}

/// The full meaning of `set` on a known field name.
pub open spec fn set_outcome(
    m: ModelDef,
    name: Seq<char>,
    v: ValueV,
    vals0: Seq<ValueV>,
    dirty0: Seq<bool>,
    c0: int,
    vals2: Seq<ValueV>,
    dirty2: Seq<bool>,
    c2: int,
    r: Result<(), FieldError>,
) -> bool {
    let i = fidx(m.fields@, name);
    let f = m.fields@[i];
    let ctx = ctx_of(field_names(m.fields@), vals0);
    &&& (f.readonly ==> r == Err::<(), FieldError>(FieldError::NotWritable) && c2 == c0)
    &&& ((!f.readonly && f.write_once && !(vals0[i] is Null)) ==> r == Err::<(), FieldError>(
        FieldError::AlreadySet,
    ) && c2 == c0)
    &&& ((!f.readonly && !(f.write_once && !(vals0[i] is Null))) ==> set_ran(
        f,
        v,
        ctx,
        i,
        vals0,
        dirty0,
        c0,
        vals2,
        dirty2,
        c2,
        r,
    ))
}

impl Object {
    /// A fresh object of the model: every field null, nothing dirty.
    pub fn new(m: &ModelDef) -> (r: Object)
        ensures
            obj_fits(r, *m),
            forall|i: int| 0 <= i < m.fields@.len() ==> vview_seq(r.values@)[i] is Null,
            forall|i: int| 0 <= i < m.fields@.len() ==> !r.dirty@[i],
            r.state == Lifecycle::New,
            !r.saved_once,
            r.rec_id is None,
    {
        let n = m.fields.len();
        let mut values: Vec<Value> = Vec::new();
        let mut dirty: Vec<bool> = Vec::new();
        let mut j: usize = 0;
        #[verifier::loop_isolation(false)]
        while j < n
            invariant
                0 <= j <= n,
                values@.len() == j,
                dirty@.len() == j,
                forall|i: int| 0 <= i < j ==> vview(#[trigger] values@[i]) is Null,
                forall|i: int| 0 <= i < j ==> !dirty@[i],
            decreases n - j,
        {
            values.push(Value::Null);
            dirty.push(false);
            j = j + 1;
        }
        proof {
            lemma_vview_seq(values@);
        }
        Object { values, dirty, state: Lifecycle::New, saved_once: false, rec_id: None }
    }

    /// Reads a field's current value; writeonly and internal fields are
    /// never handed out.
    pub fn get(&self, m: &ModelDef, name: &String) -> (r: Result<Value, FieldError>)
        requires
            obj_fits(*self, *m),
            model_ok(*m),
        ensures
            !has_field(m.fields@, name@) ==> r == Err::<Value, FieldError>(
                FieldError::UnknownField,
            ),
            has_field(m.fields@, name@) ==> {
                let i = fidx(m.fields@, name@);
                let f = m.fields@[i];
                if f.writeonly || f.internal {
                    r == Err::<Value, FieldError>(FieldError::NotReadable)
                } else {
                    r matches Ok(v) && vview(v) == vview_seq(self.values@)[i]
                }
            },
    {
        match field_index(m, name) {
            None => Err(FieldError::UnknownField),
            Some(i) => {
                let f = &m.fields[i];
                if f.writeonly || f.internal {
                    Err(FieldError::NotReadable)
                } else {
                    proof {
                        lemma_vview_seq(self.values@);
                    }
                    Ok(self.values[i].clone())
                }
            },
        }
    }

    /// Assigns a field through its on-set pipeline. Readonly fields always
    /// refuse; write-once fields refuse once they hold a non-null value; the
    /// stored value is the pipeline's output and must conform to the field's
    /// declared type. On any refusal the object is unchanged.
    pub fn set(&mut self, m: &ModelDef, name: &String, v: Value, clock: &mut u64) -> (r: Result<
        (),
        FieldError,
    >)
        requires
            obj_fits(*old(self), *m),
            model_ok(*m),
        ensures
            obj_fits(*final(self), *m),
            final(self).state == old(self).state,
            final(self).saved_once == old(self).saved_once,
            final(self).rec_id == old(self).rec_id,
            r is Err ==> final(self).values == old(self).values && final(self).dirty == old(
                self,
            ).dirty,
            !has_field(m.fields@, name@) ==> r == Err::<(), FieldError>(FieldError::UnknownField)
                && *final(clock) == *old(clock),
            has_field(m.fields@, name@) ==> set_outcome(
                *m,
                name@,
                vview(v),
                vview_seq(old(self).values@),
                old(self).dirty@,
                *old(clock) as int,
                vview_seq(final(self).values@),
                final(self).dirty@,
                *final(clock) as int,
                r,
            ),
    {
        match field_index(m, name) {
            None => Err(FieldError::UnknownField),
            Some(i) => {
                let f = &m.fields[i];
                if f.readonly {
                    Err(FieldError::NotWritable)
                } else if f.write_once && !self.values[i].is_null() {
                    proof {
                        lemma_vview_seq(self.values@);
                    }
                    Err(FieldError::AlreadySet)
                } else {
                    proof {
                        lemma_vview_seq(self.values@);
                    }
                    let names = model_field_names(m);
                    let ghost c0 = *clock as int;
                    let ghost vals0 = vview_seq(self.values@);
                    let ghost ctx = ctx_of(field_names(m.fields@), vals0);
                    let ghost vv = vview(v);
                    let sr = run_pipe(&f.on_set, v, &names, &self.values, clock);
                    let ghost cm = *clock as int;
                    proof {
                        assert(ctx_from(&names, &self.values) == ctx);
                    }
                    match sr {
                        Err(e) => {
                            proof {
                                assert(run_mid(PipeOut::Fail(e), cm));
                                assert(pipe_runs(
                                    f.on_set.steps@,
                                    vv,
                                    ctx,
                                    c0,
                                    PipeOut::Fail(e),
                                    cm,
                                ));
                            }
                            Err(FieldError::Validation(e))
                        },
                        Ok(nv) => {
                            let ghost nvv = vview(nv);
                            proof {
                                assert(run_mid(PipeOut::Val(nvv), cm));
                                assert(pipe_runs(
                                    f.on_set.steps@,
                                    vv,
                                    ctx,
                                    c0,
                                    PipeOut::Val(nvv),
                                    cm,
                                ));
                            }
                            if check_conforms(&nv, &f.kind, f.optional) {
                                proof {
                                    lemma_vview_update(self.values@, i as int, nv);
                                }
                                self.values.set(i, nv);
                                self.dirty.set(i, true);
                                Ok(())
                            } else {
                                Err(FieldError::Mismatch)
                            }
                        },
                    }
                }
            },
        }
    }
}

/// The field names of a model, as strings.
pub fn model_field_names(m: &ModelDef) -> (r: Vec<String>)
    ensures
        r.deep_view() == field_names(m.fields@),
        r@.len() == m.fields@.len(),
{
    let mut out: Vec<String> = Vec::new();
    let mut j: usize = 0;
    #[verifier::loop_isolation(false)]
    while j < m.fields.len()
        invariant
            0 <= j <= m.fields@.len(),
            out@.len() == j,
            forall|i: int| 0 <= i < j ==> (#[trigger] out@[i])@ == m.fields@[i].name@,
        decreases m.fields@.len() - j,
    {
        out.push(m.fields[j].name.clone());
        j = j + 1;
    }
    proof {
        assert(out.deep_view() =~= field_names(m.fields@));
    }
    out
}

} // verus!

verus! {

/// Why a save was refused.
#[derive(Clone, Copy, PartialEq, Eq, Structural, Debug)]
pub enum SaveError {
    /// A pipeline step refused a field's value.
    Validation(PipeErr),
    /// A field's value does not conform to its declared type after all
    /// pipelines ran.
    Mismatch,
    /// A unique field's value is already persisted on another record.
    UniqueConflict,
}

/// Outcome of a save phase over all fields: the values and the clock after,
/// or the first failure and the clock where it happened.
pub enum PhaseOut {
    Vals(Seq<ValueV>, int),
    Fail(PipeErr, int),
}

/// Marks a phase outcome; a trigger for the phase existentials.
pub open spec fn phase_mid(o: PhaseOut) -> bool {
    true
}

/// The default-computation phase: in declaration order, every field still
/// null draws its default, fixed or computed from the current siblings.
pub open spec fn defaults_run(
    fields: Seq<FieldDef>,
    i: int,
    vals: Seq<ValueV>,
    c: int,
    o: PhaseOut,
) -> bool
    decreases fields.len() - i,
{
    if i < 0 || i >= fields.len() {
        o == PhaseOut::Vals(vals, c)
    } else {
        let f = fields[i];
        let ctx = ctx_of(field_names(fields), vals);
        if vals[i] is Null {
            match f.default {
                FieldDefault::Absent => defaults_run(fields, i + 1, vals, c, o),
                FieldDefault::Fixed(d) => defaults_run(fields, i + 1, vals.update(i, vview(d)), c, o),
                FieldDefault::Computed(p) => (exists|e: PipeErr, cm: int|
                    #[trigger] run_mid(PipeOut::Fail(e), cm) && pipe_runs(
                        p.steps@,
                        ValueV::Null,
                        ctx,
                        c,
                        PipeOut::Fail(e),
                        cm,
                    ) && o == PhaseOut::Fail(e, cm)) || (exists|nv: ValueV, cm: int|
                    #[trigger] run_mid(PipeOut::Val(nv), cm) && pipe_runs(
                        p.steps@,
                        ValueV::Null,
                        ctx,
                        c,
                        PipeOut::Val(nv),
                        cm,
                    ) && defaults_run(fields, i + 1, vals.update(i, nv), cm, o)),
            }
        } else {
            defaults_run(fields, i + 1, vals, c, o)
        }
    }
}

/// The on-save phase: in declaration order, every field's on-save pipeline
/// consumes its current value in the current sibling context.
pub open spec fn onsave_run(
    fields: Seq<FieldDef>,
    i: int,
    vals: Seq<ValueV>,
    c: int,
    o: PhaseOut,
) -> bool
    decreases fields.len() - i,
{
    if i < 0 || i >= fields.len() {
        o == PhaseOut::Vals(vals, c)
    } else {
        let f = fields[i];
        let ctx = ctx_of(field_names(fields), vals);
        (exists|e: PipeErr, cm: int|
            #[trigger] run_mid(PipeOut::Fail(e), cm) && pipe_runs(
                f.on_save.steps@,
                vals[i],
                ctx,
                c,
                PipeOut::Fail(e),
                cm,
            ) && o == PhaseOut::Fail(e, cm)) || (exists|nv: ValueV, cm: int|
            #[trigger] run_mid(PipeOut::Val(nv), cm) && pipe_runs(
                f.on_save.steps@,
                vals[i],
                ctx,
                c,
                PipeOut::Val(nv),
                cm,
            ) && onsave_run(fields, i + 1, vals.update(i, nv), cm, o))
    }
}

/// A field that skips its default passes the phase through.
pub proof fn lemma_defaults_skip(fields: Seq<FieldDef>, i: int, vals: Seq<ValueV>, c: int, o: PhaseOut)
    requires
        0 <= i < fields.len(),
        !(vals[i] is Null) || fields[i].default is Absent,
        defaults_run(fields, i + 1, vals, c, o),
    ensures
        defaults_run(fields, i, vals, c, o),
{
}

/// A fixed default fills a null field.
pub proof fn lemma_defaults_fixed(fields: Seq<FieldDef>, i: int, vals: Seq<ValueV>, c: int, d: Value, o: PhaseOut)
    requires
        0 <= i < fields.len(),
        vals[i] is Null,
        fields[i].default matches FieldDefault::Fixed(dd) && dd == d,
        defaults_run(fields, i + 1, vals.update(i, vview(d)), c, o),
    ensures
        defaults_run(fields, i, vals, c, o),
{
}

/// A computed default that ran fills a null field.
pub proof fn lemma_defaults_computed_ok(
    fields: Seq<FieldDef>,
    i: int,
    vals: Seq<ValueV>,
    c: int,
    nv: ValueV,
    cm: int,
    o: PhaseOut,
)
    requires
        0 <= i < fields.len(),
        vals[i] is Null,
        fields[i].default matches FieldDefault::Computed(p) && pipe_runs(
            p.steps@,
            ValueV::Null,
            ctx_of(field_names(fields), vals),
            c,
            PipeOut::Val(nv),
            cm,
        ),
        defaults_run(fields, i + 1, vals.update(i, nv), cm, o),
    ensures
        defaults_run(fields, i, vals, c, o),
{
    assert(run_mid(PipeOut::Val(nv), cm));
}

/// A computed default that failed fails the phase there.
pub proof fn lemma_defaults_computed_fail(
    fields: Seq<FieldDef>,
    i: int,
    vals: Seq<ValueV>,
    c: int,
    e: PipeErr,
    cm: int,
)
    requires
        0 <= i < fields.len(),
        vals[i] is Null,
        fields[i].default matches FieldDefault::Computed(p) && pipe_runs(
            p.steps@,
            ValueV::Null,
            ctx_of(field_names(fields), vals),
            c,
            PipeOut::Fail(e),
            cm,
        ),
    ensures
        defaults_run(fields, i, vals, c, PhaseOut::Fail(e, cm)),
{
    assert(run_mid(PipeOut::Fail(e), cm));
}

/// An on-save pipeline that ran stores its output.
pub proof fn lemma_onsave_ok(
    fields: Seq<FieldDef>,
    i: int,
    vals: Seq<ValueV>,
    c: int,
    nv: ValueV,
    cm: int,
    o: PhaseOut,
)
    requires
        0 <= i < fields.len(),
        pipe_runs(
            fields[i].on_save.steps@,
            vals[i],
            ctx_of(field_names(fields), vals),
            c,
            PipeOut::Val(nv),
            cm,
        ),
        onsave_run(fields, i + 1, vals.update(i, nv), cm, o),
    ensures
        onsave_run(fields, i, vals, c, o),
{
    assert(run_mid(PipeOut::Val(nv), cm));
}

/// An on-save pipeline that failed fails the phase there.
pub proof fn lemma_onsave_fail(
    fields: Seq<FieldDef>,
    i: int,
    vals: Seq<ValueV>,
    c: int,
    e: PipeErr,
    cm: int,
)
    requires
        0 <= i < fields.len(),
        pipe_runs(
            fields[i].on_save.steps@,
            vals[i],
            ctx_of(field_names(fields), vals),
            c,
            PipeOut::Fail(e),
            cm,
        ),
    ensures
        onsave_run(fields, i, vals, c, PhaseOut::Fail(e, cm)),
{
    assert(run_mid(PipeOut::Fail(e), cm));
}

} // verus!

verus! {

/// Runs the default-computation phase over a working value list.
#[verifier::loop_isolation(false)]
fn apply_defaults(m: &ModelDef, work: &mut Vec<Value>, clock: &mut u64) -> (r: Option<PipeErr>)
    requires
        old(work)@.len() == m.fields@.len(),
        model_ok(*m),
    ensures
        final(work)@.len() == m.fields@.len(),
        match r {
            None => defaults_run(
                m.fields@,
                0,
                vview_seq(old(work)@),
                *old(clock) as int,
                PhaseOut::Vals(vview_seq(final(work)@), *final(clock) as int),
            ),
            Some(e) => defaults_run(
                m.fields@,
                0,
                vview_seq(old(work)@),
                *old(clock) as int,
                PhaseOut::Fail(e, *final(clock) as int),
            ),
        },
{
    let ghost vals0 = vview_seq(old(work)@);
    let ghost c0 = *old(clock) as int;
    let names = model_field_names(m);
    let mut j: usize = 0;
    while j < m.fields.len()
        invariant
            0 <= j <= m.fields@.len(),
            work@.len() == m.fields@.len(),
            forall|o: PhaseOut|
                #[trigger] defaults_run(
                    m.fields@,
                    j as int,
                    vview_seq(work@),
                    *clock as int,
                    o,
                ) ==> defaults_run(m.fields@, 0, vals0, c0, o),
        decreases m.fields@.len() - j,
    {
        let ghost valsj = vview_seq(work@);
        let ghost cj = *clock as int;
        let f = &m.fields[j];
        proof {
            lemma_vview_seq(work@);
        }
        if work[j].is_null() {
            match &f.default {
                FieldDefault::Absent => {
                    proof {
                        assert forall|o: PhaseOut|
                            #[trigger] defaults_run(
                                m.fields@,
                                j as int + 1,
                                valsj,
                                cj,
                                o,
                            ) implies defaults_run(m.fields@, 0, vals0, c0, o) by {
                            lemma_defaults_skip(m.fields@, j as int, valsj, cj, o);
                        }
                    }
                },
                FieldDefault::Fixed(d) => {
                    let dc = d.clone();
                    proof {
                        lemma_vview_update(work@, j as int, dc);
                    }
                    work.set(j, dc);
                    proof {
                        assert forall|o: PhaseOut|
                            #[trigger] defaults_run(
                                m.fields@,
                                j as int + 1,
                                vview_seq(work@),
                                cj,
                                o,
                            ) implies defaults_run(m.fields@, 0, vals0, c0, o) by {
                            lemma_defaults_fixed(m.fields@, j as int, valsj, cj, *d, o);
                        }
                    }
                },
                FieldDefault::Computed(p) => {
                    let sr = run_pipe(p, Value::Null, &names, work, clock);
                    let ghost cm = *clock as int;
                    proof {
                        assert(ctx_from(&names, work) == ctx_of(field_names(m.fields@), valsj));
                    }
                    match sr {
                        Err(e) => {
                            proof {
                                lemma_defaults_computed_fail(
                                    m.fields@,
                                    j as int,
                                    valsj,
                                    cj,
                                    e,
                                    cm,
                                );
                                assert(defaults_run(
                                    m.fields@,
                                    j as int,
                                    valsj,
                                    cj,
                                    PhaseOut::Fail(e, cm),
                                ));
                            }
                            return Some(e);
                        },
                        Ok(nv) => {
                            let ghost nvv = vview(nv);
                            proof {
                                lemma_vview_update(work@, j as int, nv);
                            }
                            work.set(j, nv);
                            proof {
                                assert forall|o: PhaseOut|
                                    #[trigger] defaults_run(
                                        m.fields@,
                                        j as int + 1,
                                        vview_seq(work@),
                                        cm,
                                        o,
                                    ) implies defaults_run(m.fields@, 0, vals0, c0, o) by {
                                    lemma_defaults_computed_ok(
                                        m.fields@,
                                        j as int,
                                        valsj,
                                        cj,
                                        nvv,
                                        cm,
                                        o,
                                    );
                                }
                            }
                        },
                    }
                },
            }
        } else {
            proof {
                assert forall|o: PhaseOut|
                    #[trigger] defaults_run(
                        m.fields@,
                        j as int + 1,
                        valsj,
                        cj,
                        o,
                    ) implies defaults_run(m.fields@, 0, vals0, c0, o) by {
                    lemma_defaults_skip(m.fields@, j as int, valsj, cj, o);
                }
            }
        }
        j = j + 1;
    }
    proof {
        assert(defaults_run(
            m.fields@,
            m.fields@.len() as int,
            vview_seq(work@),
            *clock as int,
            PhaseOut::Vals(vview_seq(work@), *clock as int),
        ));
    }
    None
}

/// Runs the on-save phase over a working value list.
#[verifier::loop_isolation(false)]
fn apply_onsave(m: &ModelDef, work: &mut Vec<Value>, clock: &mut u64) -> (r: Option<PipeErr>)
    requires
        old(work)@.len() == m.fields@.len(),
        model_ok(*m),
    ensures
        final(work)@.len() == m.fields@.len(),
        match r {
            None => onsave_run(
                m.fields@,
                0,
                vview_seq(old(work)@),
                *old(clock) as int,
                PhaseOut::Vals(vview_seq(final(work)@), *final(clock) as int),
            ),
            Some(e) => onsave_run(
                m.fields@,
                0,
                vview_seq(old(work)@),
                *old(clock) as int,
                PhaseOut::Fail(e, *final(clock) as int),
            ),
        },
{
    let ghost vals0 = vview_seq(old(work)@);
    let ghost c0 = *old(clock) as int;
    let names = model_field_names(m);
    let mut j: usize = 0;
    while j < m.fields.len()
        invariant
            0 <= j <= m.fields@.len(),
            work@.len() == m.fields@.len(),
            forall|o: PhaseOut|
                #[trigger] onsave_run(
                    m.fields@,
                    j as int,
                    vview_seq(work@),
                    *clock as int,
                    o,
                ) ==> onsave_run(m.fields@, 0, vals0, c0, o),
        decreases m.fields@.len() - j,
    {
        let ghost valsj = vview_seq(work@);
        let ghost cj = *clock as int;
        let f = &m.fields[j];
        proof {
            lemma_vview_seq(work@);
        }
        let cur = work[j].clone();
        let sr = run_pipe(&f.on_save, cur, &names, work, clock);
        let ghost cm = *clock as int;
        proof {
            assert(ctx_from(&names, work) == ctx_of(field_names(m.fields@), valsj));
        }
        match sr {
            Err(e) => {
                proof {
                    lemma_onsave_fail(m.fields@, j as int, valsj, cj, e, cm);
                    assert(onsave_run(m.fields@, j as int, valsj, cj, PhaseOut::Fail(e, cm)));
                }
                return Some(e);
            },
            Ok(nv) => {
                let ghost nvv = vview(nv);
                proof {
                    lemma_vview_update(work@, j as int, nv);
                }
                work.set(j, nv);
                proof {
                    assert forall|o: PhaseOut|
                        #[trigger] onsave_run(
                            m.fields@,
                            j as int + 1,
                            vview_seq(work@),
                            cm,
                            o,
                        ) implies onsave_run(m.fields@, 0, vals0, c0, o) by {
                        lemma_onsave_ok(m.fields@, j as int, valsj, cj, nvv, cm, o);
                    }
                }
            },
        }
        j = j + 1;
    }
    proof {
        assert(onsave_run(
            m.fields@,
            m.fields@.len() as int,
            vview_seq(work@),
            *clock as int,
            PhaseOut::Vals(vview_seq(work@), *clock as int),
        ));
    }
    None
}

} // verus!

verus! {

/// Mathematical model of a live object.
pub struct ObjV {
    pub vals: Seq<ValueV>,
    pub dirty: Seq<bool>,
    pub state: Lifecycle,
    pub saved: bool,
    pub rid: Option<u64>,
}

/// Abstraction of an object.
pub open spec fn oview(o: Object) -> ObjV {
    ObjV {
        vals: vview_seq(o.values@),
        dirty: o.dirty@,
        state: o.state,
        saved: o.saved_once,
        rid: o.rec_id,
    }
}

/// Mathematical model of the store.
pub struct StV {
    pub recs: Seq<RecV>,
    pub nid: int,
    pub clock: int,
}

/// Abstraction of the store.
pub open spec fn sview(s: Store) -> StV {
    StV { recs: recs_view(s.recs@), nid: s.next_id as int, clock: s.clock as int }
}

/// Fresh identifiers for auto fields still null at commit time.
pub open spec fn assign_auto(fields: Seq<FieldDef>, vals: Seq<ValueV>, rid: int) -> Seq<ValueV> {
    Seq::new(
        vals.len(),
        |i: int|
            if 0 <= i < fields.len() && fields[i].auto && vals[i] is Null {
                ValueV::Id(rid)
            } else {
                vals[i]
            },
    )
}

/// Every field's value conforms to its declared type.
pub open spec fn all_conform(fields: Seq<FieldDef>, vals: Seq<ValueV>) -> bool {
    forall|i: int|
        0 <= i < fields.len() ==> conforms(
            #[trigger] vals[i],
            fields[i].kind,
            fields[i].optional,
        )
}

/// No unique field's value is persisted on another record of the model.
pub open spec fn unique_ok(
    recs: Seq<RecV>,
    mname: Seq<char>,
    fields: Seq<FieldDef>,
    vals: Seq<ValueV>,
    excl: Option<u64>,
) -> bool {
    forall|i: int|
        0 <= i < fields.len() && (#[trigger] fields[i]).unique ==> !store_conflict(
            recs,
            mname,
            fields[i].name@,
            vals[i],
            excl,
        )
}

/// The names of the persisted (non-temp) fields among the first `j`.
pub open spec fn kept_names_upto(fields: Seq<FieldDef>, j: int) -> Seq<Seq<char>>
    decreases j,
{
    if j <= 0 {
        Seq::empty()
    } else if fields[j - 1].temp {
        kept_names_upto(fields, j - 1)
    } else {
        kept_names_upto(fields, j - 1).push(fields[j - 1].name@)
    }
}

/// The values of the persisted (non-temp) fields among the first `j`.
pub open spec fn kept_vals_upto(fields: Seq<FieldDef>, vals: Seq<ValueV>, j: int) -> Seq<ValueV>
    decreases j,
{
    if j <= 0 {
        Seq::empty()
    } else if fields[j - 1].temp {
        kept_vals_upto(fields, vals, j - 1)
    } else {
        kept_vals_upto(fields, vals, j - 1).push(vals[j - 1])
    }
}

/// The record a commit writes: the model name, the identifier, and the
/// persisted fields with their final values.
pub open spec fn new_rec(m: ModelDef, vals: Seq<ValueV>, rid: int) -> RecV {
    RecV {
        model: m.name@,
        rec_id: rid,
        names: kept_names_upto(m.fields@, m.fields@.len() as int),
        vals: kept_vals_upto(m.fields@, vals, m.fields@.len() as int),
    }
}

/// The record bearing the identifier was replaced, or no record bears it and
/// the store is unchanged.
pub open spec fn rec_replaced(recs0: Seq<RecV>, id: u64, nr: RecV, recs2: Seq<RecV>) -> bool {
    (exists|i: int|
        0 <= i < recs0.len() && (#[trigger] recs0[i]).rec_id == id as int && recs2 == recs0.update(
            i,
            nr,
        )) || ((forall|i: int| 0 <= i < recs0.len() ==> (#[trigger] recs0[i]).rec_id != id as int)
        && recs2 == recs0)
}

/// What a successful commit does: auto identifiers drawn, every value
/// conforming, no unique conflict, the record written, the object saved and
/// clean.
pub open spec fn saved_commit(
    m: ModelDef,
    fin: Seq<ValueV>,
    rid0: Option<u64>,
    recs0: Seq<RecV>,
    nid0: int,
    ob2: ObjV,
    recs2: Seq<RecV>,
    nid2: int,
) -> bool {
    let rid: int = match rid0 {
        Some(id) => id as int,
        None => nid0,
    };
    let fin2 = assign_auto(m.fields@, fin, rid);
    &&& all_conform(m.fields@, fin2)
    &&& unique_ok(recs0, m.name@, m.fields@, fin2, rid0)
    &&& ob2.vals == fin2
    &&& ob2.dirty == Seq::new(m.fields@.len(), |i: int| false)
    &&& ob2.state == Lifecycle::Saved
    &&& ob2.saved
    &&& (rid0 matches Some(id) ==> ob2.rid == rid0 && nid2 == nid0 && rec_replaced(
        recs0,
        id,
        new_rec(m, fin2, id as int),
        recs2,
    ))
    &&& (rid0 is None ==> (ob2.rid matches Some(x) && x as int == nid0) && nid2 == nid0 + 1
        && recs2 == recs0.push(new_rec(m, fin2, nid0)))
}

/// Why a save was refused, related to the phases that ran before it failed.
pub open spec fn save_refused(m: ModelDef, ob: ObjV, st: StV, c2: int, e: SaveError) -> bool {
    let rid: int = match ob.rid {
        Some(id) => id as int,
        None => st.nid,
    };
    match e {
        SaveError::Validation(pe) => (exists|mid: Seq<ValueV>, c1: int|
            #[trigger] phase_mid(PhaseOut::Vals(mid, c1)) && (if ob.saved {
                mid == ob.vals && c1 == st.clock
            } else {
                defaults_run(m.fields@, 0, ob.vals, st.clock, PhaseOut::Vals(mid, c1))
            }) && onsave_run(m.fields@, 0, mid, c1, PhaseOut::Fail(pe, c2))) || (!ob.saved
            && defaults_run(m.fields@, 0, ob.vals, st.clock, PhaseOut::Fail(pe, c2))),
        SaveError::Mismatch => exists|mid: Seq<ValueV>, c1: int|
            #[trigger] phase_mid(PhaseOut::Vals(mid, c1)) && (if ob.saved {
                mid == ob.vals && c1 == st.clock
            } else {
                defaults_run(m.fields@, 0, ob.vals, st.clock, PhaseOut::Vals(mid, c1))
            }) && (exists|fin: Seq<ValueV>, cb: int|
                #[trigger] phase_mid(PhaseOut::Vals(fin, cb)) && onsave_run(
                    m.fields@,
                    0,
                    mid,
                    c1,
                    PhaseOut::Vals(fin, cb),
                ) && c2 == cb && !all_conform(m.fields@, assign_auto(m.fields@, fin, rid))),
        SaveError::UniqueConflict => exists|mid: Seq<ValueV>, c1: int|
            #[trigger] phase_mid(PhaseOut::Vals(mid, c1)) && (if ob.saved {
                mid == ob.vals && c1 == st.clock
            } else {
                defaults_run(m.fields@, 0, ob.vals, st.clock, PhaseOut::Vals(mid, c1))
            }) && (exists|fin: Seq<ValueV>, cb: int|
                #[trigger] phase_mid(PhaseOut::Vals(fin, cb)) && onsave_run(
                    m.fields@,
                    0,
                    mid,
                    c1,
                    PhaseOut::Vals(fin, cb),
                ) && c2 == cb && all_conform(m.fields@, assign_auto(m.fields@, fin, rid))
                && !unique_ok(
                    st.recs,
                    m.name@,
                    m.fields@,
                    assign_auto(m.fields@, fin, rid),
                    ob.rid,
                )),
    }
}

/// One save pass without its hooks: defaults (on first save), on-save
/// pipelines, validation, and the write; or a refusal with nothing written
/// and the object untouched.
pub open spec fn core_saved(
    m: ModelDef,
    ob: ObjV,
    st: StV,
    ob2: ObjV,
    st2: StV,
    r: Result<(), SaveError>,
) -> bool {
    &&& (r is Ok ==> exists|mid: Seq<ValueV>, c1: int|
        #[trigger] phase_mid(PhaseOut::Vals(mid, c1)) && (if ob.saved {
            mid == ob.vals && c1 == st.clock
        } else {
            defaults_run(m.fields@, 0, ob.vals, st.clock, PhaseOut::Vals(mid, c1))
        }) && (exists|fin: Seq<ValueV>, cb: int|
            #[trigger] phase_mid(PhaseOut::Vals(fin, cb)) && onsave_run(
                m.fields@,
                0,
                mid,
                c1,
                PhaseOut::Vals(fin, cb),
            ) && st2.clock == cb && saved_commit(
                m,
                fin,
                ob.rid,
                st.recs,
                st.nid,
                ob2,
                st2.recs,
                st2.nid,
            )))
    &&& (r matches Err(e) ==> ob2 == ob && st2.recs == st.recs && st2.nid == st.nid
        && save_refused(m, ob, st, st2.clock, e))
}

} // verus!

verus! {

/// The ceiling on hook-triggered nested saves.
pub const MAX_SAVE_DEPTH: u64 = 8;

/// Marks an assignment outcome; a trigger for hook existentials.
pub open spec fn assign_mid(ob: ObjV, c: int, r: Result<(), FieldError>) -> bool {
    true
}

/// Marks a save outcome; a trigger for hook existentials.
pub open spec fn chain_mid(ob: ObjV, st: StV, r: Result<(), SaveError>) -> bool {
    true
}

/// Marks an intermediate object and store; a trigger for hook existentials.
pub open spec fn state_mid(ob: ObjV, st: StV) -> bool {
    true
}

/// The hook a save dispatches: created on the first save, updated later.
pub open spec fn hook_of(m: ModelDef, was_saved: bool) -> Seq<HookAction> {
    if !was_saved {
        m.on_created@
    } else {
        m.on_updated@
    }
}

/// What a hook's assignment does: the ordinary `set` semantics, with a
/// failure ignored and the object then left unchanged.
pub open spec fn hook_assign(
    m: ModelDef,
    ob: ObjV,
    c: int,
    name: Seq<char>,
    v: ValueV,
    obn: ObjV,
    cn: int,
    rr: Result<(), FieldError>,
) -> bool {
    &&& obn.state == ob.state && obn.saved == ob.saved && obn.rid == ob.rid
    &&& (!has_field(m.fields@, name) ==> rr == Err::<(), FieldError>(FieldError::UnknownField)
        && obn.vals == ob.vals && obn.dirty == ob.dirty && cn == c)
    &&& (has_field(m.fields@, name) ==> set_outcome(
        m,
        name,
        v,
        ob.vals,
        ob.dirty,
        c,
        obn.vals,
        obn.dirty,
        cn,
        rr,
    ))
    &&& (rr is Err ==> obn.vals == ob.vals && obn.dirty == ob.dirty)
}

/// What running a hook's actions from a position does. An assignment runs
/// through `set` and a failure is ignored; a nested save runs the whole save
/// again one level deeper, dispatching the updated hook, and is refused
/// outright past the depth ceiling.
pub open spec fn actions_rel(
    m: ModelDef,
    actions: Seq<HookAction>,
    i: int,
    ob: ObjV,
    st: StV,
    depth: int,
    ob2: ObjV,
    st2: StV,
) -> bool
    decreases MAX_SAVE_DEPTH - depth, actions.len() - i,
        when 0 <= depth <= MAX_SAVE_DEPTH && 0 <= i
{
    if i >= actions.len() {
        ob2 == ob && st2 == st
    } else {
        match actions[i] {
            HookAction::Assign(name, v) => exists|obn: ObjV, cn: int, rr: Result<(), FieldError>|
                #[trigger] assign_mid(obn, cn, rr) && hook_assign(m, ob, st.clock, name@, vview(v), obn, cn, rr)
                    && actions_rel(
                    m,
                    actions,
                    i + 1,
                    obn,
                    StV { recs: st.recs, nid: st.nid, clock: cn },
                    depth,
                    ob2,
                    st2,
                ),
            HookAction::SaveAgain => if depth + 1 > MAX_SAVE_DEPTH {
                actions_rel(m, actions, i + 1, ob, st, depth, ob2, st2)
            } else {
                exists|obm: ObjV, stm: StV|
                    #[trigger] state_mid(obm, stm) && (exists|
                        obc: ObjV,
                        stc: StV,
                        rr: Result<(), SaveError>,
                    |
                        #[trigger] chain_mid(obc, stc, rr) && core_saved(m, ob, st, obc, stc, rr)
                            && (rr is Ok ==> actions_rel(
                            m,
                            hook_of(m, ob.saved),
                            0,
                            obc,
                            stc,
                            depth + 1,
                            obm,
                            stm,
                        )) && (rr is Err ==> obm == obc && stm == stc)) && actions_rel(
                        m,
                        actions,
                        i + 1,
                        obm,
                        stm,
                        depth,
                        ob2,
                        st2,
                    )
            },
        }
    }
}

/// A whole save: one save pass, then on success the lifecycle hook for this
/// transition, whose actions may assign fields and save again.
pub open spec fn saved_full(
    m: ModelDef,
    ob0: ObjV,
    st0: StV,
    depth: int,
    ob2: ObjV,
    st2: StV,
    r: Result<(), SaveError>,
) -> bool {
    exists|obc: ObjV, stc: StV|
        #[trigger] chain_mid(obc, stc, r) && core_saved(m, ob0, st0, obc, stc, r) && (r is Ok
            ==> actions_rel(m, hook_of(m, ob0.saved), 0, obc, stc, depth, ob2, st2)) && (r is Err
            ==> ob2 == obc && st2 == stc)
}

} // verus!

verus! {

/// Draws the identifier into auto fields still null.
#[verifier::loop_isolation(false)]
fn apply_auto(m: &ModelDef, work: &mut Vec<Value>, rid: u64)
    requires
        old(work)@.len() == m.fields@.len(),
    ensures
        final(work)@.len() == m.fields@.len(),
        vview_seq(final(work)@) == assign_auto(m.fields@, vview_seq(old(work)@), rid as int),
{
    let ghost vals0 = vview_seq(old(work)@);
    let ghost target = assign_auto(m.fields@, vals0, rid as int);
    proof {
        lemma_vview_seq(work@);
    }
    let mut j: usize = 0;
    while j < m.fields.len()
        invariant
            0 <= j <= m.fields@.len(),
            work@.len() == m.fields@.len(),
            vview_seq(work@).len() == m.fields@.len(),
            vals0.len() == m.fields@.len(),
            forall|i: int|
                j <= i < m.fields@.len() ==> #[trigger] vview_seq(work@)[i] == vals0[i],
            forall|i: int| 0 <= i < j ==> #[trigger] vview_seq(work@)[i] == target[i],
        decreases m.fields@.len() - j,
    {
        let ghost pre = vview_seq(work@);
        proof {
            lemma_vview_seq(work@);
        }
        if m.fields[j].auto && work[j].is_null() {
            let nv = Value::Id(rid);
            proof {
                lemma_vview_update(work@, j as int, nv);
                assert(pre[j as int] == vview(work@[j as int]));
                assert(pre[j as int] is Null);
                assert(target[j as int] == ValueV::Id(rid as int));
            }
            work.set(j, nv);
            proof {
                assert forall|i: int| 0 <= i < j + 1 implies #[trigger] vview_seq(work@)[i]
                    == target[i] by {
                    if i < j {
                        assert(vview_seq(work@)[i] == pre[i]);
                    }
                }
            }
        } else {
            proof {
                assert(pre[j as int] == vview(work@[j as int]));
                assert(target[j as int] == vals0[j as int]);
            }
        }
        j = j + 1;
    }
    proof {
        lemma_vview_seq(work@);
        assert(vview_seq(work@) =~= target);
    }
}

/// Checks that every field's value conforms to its declared type.
#[verifier::loop_isolation(false)]
fn check_all_conform(m: &ModelDef, work: &Vec<Value>) -> (r: bool)
    requires
        work@.len() == m.fields@.len(),
    ensures
        r == all_conform(m.fields@, vview_seq(work@)),
{
    proof {
        lemma_vview_seq(work@);
    }
    let ghost vals = vview_seq(work@);
    let mut j: usize = 0;
    let mut ok: bool = true;
    while j < m.fields.len()
        invariant
            0 <= j <= m.fields@.len(),
            ok == forall|i: int|
                0 <= i < j ==> conforms(#[trigger] vals[i], m.fields@[i].kind, m.fields@[i].optional),
        decreases m.fields@.len() - j,
    {
        let f = &m.fields[j];
        let c = check_conforms(&work[j], &f.kind, f.optional);
        proof {
            assert(c == conforms(vals[j as int], m.fields@[j as int].kind, m.fields@[j as int].optional));
        }
        ok = ok && c;
        j = j + 1;
    }
    ok
}

/// Checks uniqueness of every unique field against the persisted records.
#[verifier::loop_isolation(false)]
fn check_unique(m: &ModelDef, work: &Vec<Value>, store: &Store, excl: Option<u64>) -> (r: bool)
    requires
        work@.len() == m.fields@.len(),
    ensures
        r == unique_ok(recs_view(store.recs@), m.name@, m.fields@, vview_seq(work@), excl),
{
    proof {
        lemma_vview_seq(work@);
    }
    let ghost vals = vview_seq(work@);
    let ghost rv = recs_view(store.recs@);
    let mut j: usize = 0;
    while j < m.fields.len()
        invariant
            0 <= j <= m.fields@.len(),
            forall|i: int|
                0 <= i < j && (#[trigger] m.fields@[i]).unique ==> !store_conflict(
                    rv,
                    m.name@,
                    m.fields@[i].name@,
                    vals[i],
                    excl,
                ),
        decreases m.fields@.len() - j,
    {
        let f = &m.fields[j];
        if f.unique {
            if store.has_conflict(&m.name, &f.name, &work[j], excl) {
                return false;
            }
        }
        j = j + 1;
    }
    true
}

/// Builds the persisted field names and values, skipping temp fields.
#[verifier::loop_isolation(false)]
fn build_kept(m: &ModelDef, work: &Vec<Value>) -> (r: (Vec<String>, Vec<Value>))
    requires
        work@.len() == m.fields@.len(),
    ensures
        r.0.deep_view() == kept_names_upto(m.fields@, m.fields@.len() as int),
        vview_seq(r.1@) == kept_vals_upto(
            m.fields@,
            vview_seq(work@),
            m.fields@.len() as int,
        ),
{
    proof {
        lemma_vview_seq(work@);
    }
    let ghost vals = vview_seq(work@);
    let mut names: Vec<String> = Vec::new();
    let mut kvals: Vec<Value> = Vec::new();
    let mut j: usize = 0;
    while j < m.fields.len()
        invariant
            0 <= j <= m.fields@.len(),
            names.deep_view() == kept_names_upto(m.fields@, j as int),
            vview_seq(kvals@) == kept_vals_upto(m.fields@, vals, j as int),
        decreases m.fields@.len() - j,
    {
        let ghost names0 = names.deep_view();
        let ghost kv0 = vview_seq(kvals@);
        let f = &m.fields[j];
        if !f.temp {
            proof {
                lemma_vview_seq(kvals@);
            }
            names.push(f.name.clone());
            let c = work[j].clone();
            kvals.push(c);
            proof {
                assert(names.deep_view() =~= names0.push(m.fields@[j as int].name@));
                lemma_vview_seq(kvals@);
                assert(vview_seq(kvals@) =~= kv0.push(vals[j as int]));
            }
        }
        j = j + 1;
    }
    (names, kvals)
}

/// A clean dirty map.
fn fresh_dirty(n: usize) -> (r: Vec<bool>)
    ensures
        r@ == Seq::new(n as nat, |i: int| false),
{
    let mut out: Vec<bool> = Vec::new();
    let mut j: usize = 0;
    #[verifier::loop_isolation(false)]
    while j < n
        invariant
            0 <= j <= n,
            out@.len() == j,
            forall|i: int| 0 <= i < j ==> !out@[i],
        decreases n - j,
    {
        out.push(false);
        j = j + 1;
    }
    proof {
        assert(out@ =~= Seq::new(n as nat, |i: int| false));
    }
    out
}

} // verus!

verus! {

impl Object {
    /// One save pass and its hooks, at the given nesting depth: defaults on
    /// the first save, every on-save pipeline in declaration order, type and
    /// uniqueness validation, the write, and then the lifecycle hook.
    fn save_at(&mut self, m: &ModelDef, store: &mut Store, depth: u64) -> (r: Result<
        (),
        SaveError,
    >)
        requires
            obj_fits(*old(self), *m),
            model_ok(*m),
            depth <= MAX_SAVE_DEPTH,
            old(self).rec_id is None ==> old(store).next_id < u64::MAX,
        ensures
            obj_fits(*final(self), *m),
            old(self).rec_id is Some ==> final(self).rec_id is Some,
            r is Ok ==> final(self).rec_id is Some,
            saved_full(
                *m,
                oview(*old(self)),
                sview(*old(store)),
                depth as int,
                oview(*final(self)),
                sview(*final(store)),
                r,
            ),
        decreases MAX_SAVE_DEPTH - depth, 1nat, 0nat,
    {
        let ghost ob0 = oview(*self);
        let ghost st0 = sview(*store);
        let was_saved = self.saved_once;
        let mut work = clone_values(&self.values);
        let ghost c_start = store.clock as int;
        if !was_saved {
            match apply_defaults(m, &mut work, &mut store.clock) {
                Some(e) => {
                    proof {
                        assert(save_refused(
                            *m,
                            ob0,
                            st0,
                            store.clock as int,
                            SaveError::Validation(e),
                        ));
                        assert(core_saved(
                            *m,
                            ob0,
                            st0,
                            oview(*self),
                            sview(*store),
                            Err::<(), SaveError>(SaveError::Validation(e)),
                        ));
                        assert(chain_mid(
                            oview(*self),
                            sview(*store),
                            Err::<(), SaveError>(SaveError::Validation(e)),
                        ));
                    }
                    return Err(SaveError::Validation(e));
                },
                None => {},
            }
        }
        let ghost midv = vview_seq(work@);
        let ghost c1 = store.clock as int;
        proof {
            assert(phase_mid(PhaseOut::Vals(midv, c1)));
        }
        match apply_onsave(m, &mut work, &mut store.clock) {
            Some(e) => {
                proof {
                    assert(save_refused(
                        *m,
                        ob0,
                        st0,
                        store.clock as int,
                        SaveError::Validation(e),
                    ));
                    assert(core_saved(
                        *m,
                        ob0,
                        st0,
                        oview(*self),
                        sview(*store),
                        Err::<(), SaveError>(SaveError::Validation(e)),
                    ));
                    assert(chain_mid(
                        oview(*self),
                        sview(*store),
                        Err::<(), SaveError>(SaveError::Validation(e)),
                    ));
                }
                return Err(SaveError::Validation(e));
            },
            None => {},
        }
        let ghost finv = vview_seq(work@);
        let ghost cb = store.clock as int;
        proof {
            assert(phase_mid(PhaseOut::Vals(finv, cb)));
        }
        let rid: u64 = match self.rec_id {
            Some(id) => id,
            None => store.next_id,
        };
        apply_auto(m, &mut work, rid);
        let ghost fin2 = vview_seq(work@);
        if !check_all_conform(m, &work) {
            proof {
                assert(save_refused(*m, ob0, st0, store.clock as int, SaveError::Mismatch));
                assert(core_saved(
                    *m,
                    ob0,
                    st0,
                    oview(*self),
                    sview(*store),
                    Err::<(), SaveError>(SaveError::Mismatch),
                ));
                assert(chain_mid(
                    oview(*self),
                    sview(*store),
                    Err::<(), SaveError>(SaveError::Mismatch),
                ));
            }
            return Err(SaveError::Mismatch);
        }
        if !check_unique(m, &work, store, self.rec_id) {
            proof {
                assert(save_refused(*m, ob0, st0, store.clock as int, SaveError::UniqueConflict));
                assert(core_saved(
                    *m,
                    ob0,
                    st0,
                    oview(*self),
                    sview(*store),
                    Err::<(), SaveError>(SaveError::UniqueConflict),
                ));
                assert(chain_mid(
                    oview(*self),
                    sview(*store),
                    Err::<(), SaveError>(SaveError::UniqueConflict),
                ));
            }
            return Err(SaveError::UniqueConflict);
        }
        let (knames, kvals) = build_kept(m, &work);
        self.state = Lifecycle::Saving;
        match self.rec_id {
            Some(id) => {
                store.replace(id, &m.name, knames, kvals);
            },
            None => {
                let id = store.insert(&m.name, knames, kvals);
                self.rec_id = Some(id);
            },
        }
        self.values = work;
        self.dirty = fresh_dirty(m.fields.len());
        self.state = Lifecycle::Saved;
        self.saved_once = true;
        let ghost obc = oview(*self);
        let ghost stc = sview(*store);
        proof {
            assert(saved_commit(*m, finv, ob0.rid, st0.recs, st0.nid, obc, stc.recs, stc.nid));
            assert(core_saved(*m, ob0, st0, obc, stc, Ok::<(), SaveError>(())));
            assert(chain_mid(obc, stc, Ok::<(), SaveError>(())));
        }
        if !was_saved {
            run_actions(self, m, &m.on_created, 0, store, depth);
        } else {
            run_actions(self, m, &m.on_updated, 0, store, depth);
        }
        proof {
            assert(saved_full(
                *m,
                ob0,
                st0,
                depth as int,
                oview(*self),
                sview(*store),
                Ok::<(), SaveError>(()),
            ));
        }
        Ok(())
    }

    /// Saves the object: defaults, on-save pipelines, validation, the write,
    /// and the created or updated hook, whose nested saves are bounded by the
    /// recursion guard.
    pub fn save(&mut self, m: &ModelDef, store: &mut Store) -> (r: Result<(), SaveError>)
        requires
            obj_fits(*old(self), *m),
            model_ok(*m),
            old(self).rec_id is None ==> old(store).next_id < u64::MAX,
        ensures
            obj_fits(*final(self), *m),
            r is Ok ==> final(self).rec_id is Some,
            saved_full(
                *m,
                oview(*old(self)),
                sview(*old(store)),
                0,
                oview(*final(self)),
                sview(*final(store)),
                r,
            ),
    {
        self.save_at(m, store, 0)
    }
}

/// Runs the remaining actions of a lifecycle hook.
fn run_actions(
    obj: &mut Object,
    m: &ModelDef,
    actions: &Vec<HookAction>,
    i: usize,
    store: &mut Store,
    depth: u64,
)
    requires
        obj_fits(*old(obj), *m),
        model_ok(*m),
        i <= actions@.len(),
        depth <= MAX_SAVE_DEPTH,
        old(obj).rec_id is Some,
    ensures
        obj_fits(*final(obj), *m),
        final(obj).rec_id is Some,
        actions_rel(
            *m,
            actions@,
            i as int,
            oview(*old(obj)),
            sview(*old(store)),
            depth as int,
            oview(*final(obj)),
            sview(*final(store)),
        ),
    decreases MAX_SAVE_DEPTH - depth, 0nat, actions@.len() - i,
{
    if i == actions.len() {
        return ;
    }
    let ghost obA = oview(*obj);
    let ghost stA = sview(*store);
    match &actions[i] {
        HookAction::Assign(name, v) => {
            let vc = v.clone();
            let rr = obj.set(m, name, vc, &mut store.clock);
            let ghost obn = oview(*obj);
            let ghost cn = store.clock as int;
            proof {
                assert(assign_mid(obn, cn, rr));
                assert(hook_assign(*m, obA, stA.clock, name@, vview(*v), obn, cn, rr));
                assert(sview(*store) == StV { recs: stA.recs, nid: stA.nid, clock: cn });
            }
            run_actions(obj, m, actions, i + 1, store, depth);
            proof {
                assert(actions_rel(
                    *m,
                    actions@,
                    i as int,
                    obA,
                    stA,
                    depth as int,
                    oview(*obj),
                    sview(*store),
                ));
            }
        },
        HookAction::SaveAgain => {
            if depth < MAX_SAVE_DEPTH {
                let rr = obj.save_at(m, store, depth + 1);
                let ghost obm = oview(*obj);
                let ghost stm = sview(*store);
                proof {
                    assert(state_mid(obm, stm));
                }
                run_actions(obj, m, actions, i + 1, store, depth);
                proof {
                    assert(actions_rel(
                        *m,
                        actions@,
                        i as int,
                        obA,
                        stA,
                        depth as int,
                        oview(*obj),
                        sview(*store),
                    ));
                }
            } else {
                run_actions(obj, m, actions, i + 1, store, depth);
                proof {
                    assert(actions_rel(
                        *m,
                        actions@,
                        i as int,
                        obA,
                        stA,
                        depth as int,
                        oview(*obj),
                        sview(*store),
                    ));
                }
            }
        },
    }
}

} // verus!
