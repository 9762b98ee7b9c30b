use vstd::prelude::*;

use crate::object::{core_saved, defaults_run, fidx, onsave_run, phase_mid, saved_commit, set_outcome, FieldError, ObjV, PhaseOut, SaveError, StV};
use crate::pipeline::{
    all_digits, next_tick, pipe_runs, run_mid, step_runs, truthy, PipeErr, PipeOut, PipeStep,
};
use crate::schema::{field_names, has_field, FieldDef, FieldDefault, ModelDef};
use crate::value::{conforms, ValueV};

verus! {

/// A one-step pipeline does what its step does.
pub proof fn lemma_singleton_pipe(
    s: Seq<PipeStep>,
    v: ValueV,
    ctx: Map<Seq<char>, ValueV>,
    c: int,
    o: PipeOut,
    c2: int,
)
    requires
        s.len() == 1,
        pipe_runs(s, v, ctx, c, o, c2),
    ensures
        step_runs(s[0], v, ctx, c, o, c2),
{
    if o is Fail && step_runs(s[0], v, ctx, c, o, c2) {
    } else {
        let (v1, cm): (ValueV, int) = choose|v1: ValueV, cm: int|
            #[trigger] run_mid(PipeOut::Val(v1), cm) && step_runs(
                s[0],
                v,
                ctx,
                c,
                PipeOut::Val(v1),
                cm,
            ) && pipe_runs(s.subrange(1, s.len() as int), v1, ctx, cm, o, c2);
        assert(s.subrange(1, s.len() as int).len() == 0);
        assert(o == PipeOut::Val(v1) && c2 == cm);
    }
}

/// A step may be lifted to the one-step pipeline that holds it.
pub proof fn lemma_singleton_intro(
    s: Seq<PipeStep>,
    v: ValueV,
    ctx: Map<Seq<char>, ValueV>,
    c: int,
    o: PipeOut,
    c2: int,
)
    requires
        s.len() == 1,
        step_runs(s[0], v, ctx, c, o, c2),
    ensures
        pipe_runs(s, v, ctx, c, o, c2),
{
    match o {
        PipeOut::Fail(_) => {},
        PipeOut::Val(v1) => {
            assert(run_mid(PipeOut::Val(v1), c2));
            assert(pipe_runs(s.subrange(1, s.len() as int), v1, ctx, c2, o, c2));
        },
    }
}

/// A conditional that fills a null value with the clock and otherwise leaves
/// the value alone: on a non-null value every run passes the value through
/// unchanged; on a null value every run yields the clock's tick.
pub proof fn lemma_fill_once(
    s: PipeStep,
    v: ValueV,
    ctx: Map<Seq<char>, ValueV>,
    c: int,
    o: PipeOut,
    c2: int,
)
    requires
        s matches PipeStep::IfThen(test, then) && test.steps@ =~= seq![PipeStep::IsNull]
            && then.steps@ =~= seq![PipeStep::Now],
        step_runs(s, v, ctx, c, o, c2),
    ensures
        !(v is Null) ==> o == PipeOut::Val(v) && c2 == c,
        v is Null ==> o == PipeOut::Val(ValueV::DateTime(c)) && c2 == next_tick(c),
{
    let test = s->IfThen_0;
    let then = s->IfThen_1;
    if exists|e: PipeErr, cm: int|
        #[trigger] run_mid(PipeOut::Fail(e), cm) && pipe_runs(
            test.steps@,
            v,
            ctx,
            c,
            PipeOut::Fail(e),
            cm,
        ) {
        let (e, cm): (PipeErr, int) = choose|e: PipeErr, cm: int|
            #[trigger] run_mid(PipeOut::Fail(e), cm) && pipe_runs(
                test.steps@,
                v,
                ctx,
                c,
                PipeOut::Fail(e),
                cm,
            );
        lemma_singleton_pipe(test.steps@, v, ctx, c, PipeOut::Fail(e), cm);
        assert(false);
    } else {
        let (tv, cm): (ValueV, int) = choose|tv: ValueV, cm: int|
            #[trigger] run_mid(PipeOut::Val(tv), cm) && pipe_runs(
                test.steps@,
                v,
                ctx,
                c,
                PipeOut::Val(tv),
                cm,
            ) && (if truthy(tv) {
                pipe_runs(then.steps@, v, ctx, cm, o, c2)
            } else {
                o == PipeOut::Val(v) && c2 == cm
            });
        lemma_singleton_pipe(test.steps@, v, ctx, c, PipeOut::Val(tv), cm);
        assert(tv == ValueV::Bool(v is Null) && cm == c);
        if v is Null {
            assert(truthy(tv));
            lemma_singleton_pipe(then.steps@, v, ctx, c, o, c2);
        } else {
            assert(!truthy(tv));
        }
    }
}

/// An unconditional clock step assigns the current tick on every run, and
/// two runs where the second starts no earlier than the first ended always
/// yield distinct values.
pub proof fn lemma_always_fresh(
    s: Seq<PipeStep>,
    v: ValueV,
    w: ValueV,
    ctx: Map<Seq<char>, ValueV>,
    cx: Map<Seq<char>, ValueV>,
    c: int,
    o: PipeOut,
    c2: int,
    d: int,
    o2: PipeOut,
    d2: int,
)
    requires
        s =~= seq![PipeStep::Now],
        pipe_runs(s, v, ctx, c, o, c2),
        pipe_runs(s, w, cx, d, o2, d2),
        d >= c2,
        c < u64::MAX as int,
    ensures
        o == PipeOut::Val(ValueV::DateTime(c)),
        c2 == c + 1,
        o2 == PipeOut::Val(ValueV::DateTime(d)),
        o != o2,
{
    lemma_singleton_pipe(s, v, ctx, c, o, c2);
    lemma_singleton_pipe(s, w, cx, d, o2, d2);
}

/// A random-digits step never fails, and every outcome is a string of
/// exactly the asked-for number of decimal digits.
pub proof fn lemma_random_digits_shape(
    s: PipeStep,
    n: usize,
    v: ValueV,
    ctx: Map<Seq<char>, ValueV>,
    c: int,
    o: PipeOut,
    c2: int,
)
    requires
        s == PipeStep::RandomDigits(n),
        step_runs(s, v, ctx, c, o, c2),
    ensures
        o matches PipeOut::Val(d) && d matches ValueV::Str(t) && t.len() == n && all_digits(t),
        c2 == c,
{
}

/// Assigning a readonly field always fails, whatever the value.
pub proof fn lemma_readonly_set_refused(
    m: ModelDef,
    name: Seq<char>,
    v: ValueV,
    vals0: Seq<ValueV>,
    dirty0: Seq<bool>,
    c0: int,
    vals2: Seq<ValueV>,
    dirty2: Seq<bool>,
    c2: int,
    r: Result<(), FieldError>,
)
    requires
        has_field(m.fields@, name),
        m.fields@[fidx(m.fields@, name)].readonly,
        set_outcome(m, name, v, vals0, dirty0, c0, vals2, dirty2, c2, r),
    ensures
        r == Err::<(), FieldError>(FieldError::NotWritable),
{
}

/// Once a write-once field holds a non-null value, every later assignment
/// fails, even one of the same value.
pub proof fn lemma_write_once_locks(
    m: ModelDef,
    name: Seq<char>,
    v: ValueV,
    vals0: Seq<ValueV>,
    dirty0: Seq<bool>,
    c0: int,
    vals2: Seq<ValueV>,
    dirty2: Seq<bool>,
    c2: int,
    r: Result<(), FieldError>,
)
    requires
        has_field(m.fields@, name),
        m.fields@[fidx(m.fields@, name)].write_once,
        !m.fields@[fidx(m.fields@, name)].readonly,
        !(vals0[fidx(m.fields@, name)] is Null),
        set_outcome(m, name, v, vals0, dirty0, c0, vals2, dirty2, c2, r),
    ensures
        r == Err::<(), FieldError>(FieldError::AlreadySet),
{
}

/// The first non-null assignment to a plain writable write-once field
/// succeeds and stores the value.
pub proof fn lemma_write_once_first(
    m: ModelDef,
    name: Seq<char>,
    v: ValueV,
    vals0: Seq<ValueV>,
    dirty0: Seq<bool>,
    c0: int,
    vals2: Seq<ValueV>,
    dirty2: Seq<bool>,
    c2: int,
    r: Result<(), FieldError>,
)
    requires
        has_field(m.fields@, name),
        m.fields@[fidx(m.fields@, name)].write_once,
        !m.fields@[fidx(m.fields@, name)].readonly,
        m.fields@[fidx(m.fields@, name)].on_set.steps@.len() == 0,
        conforms(
            v,
            m.fields@[fidx(m.fields@, name)].kind,
            m.fields@[fidx(m.fields@, name)].optional,
        ),
        vals0[fidx(m.fields@, name)] is Null,
        !(v is Null),
        set_outcome(m, name, v, vals0, dirty0, c0, vals2, dirty2, c2, r),
    ensures
        r is Ok,
        vals2 == vals0.update(fidx(m.fields@, name), v),
{
    let i = fidx(m.fields@, name);
    let f = m.fields@[i];
    let ctx = crate::pipeline::ctx_of(field_names(m.fields@), vals0);
    match r {
        Ok(_) => {
            let (nv, cm): (ValueV, int) = choose|nv: ValueV, cm: int|
                #[trigger] run_mid(PipeOut::Val(nv), cm) && pipe_runs(
                    f.on_set.steps@,
                    v,
                    ctx,
                    c0,
                    PipeOut::Val(nv),
                    cm,
                ) && conforms(nv, f.kind, f.optional) && vals2 == vals0.update(i, nv) && c2 == cm
                    && dirty2 == dirty0.update(i, true);
            assert(nv == v);
        },
        Err(e) => {
            match e {
                FieldError::Validation(pe) => {
                    let cm = choose|cm: int|
                        #[trigger] run_mid(PipeOut::Fail(pe), cm) && pipe_runs(
                            f.on_set.steps@,
                            v,
                            ctx,
                            c0,
                            PipeOut::Fail(pe),
                            cm,
                        ) && c2 == cm;
                    assert(false);
                },
                FieldError::Mismatch => {
                    let (nv, cm): (ValueV, int) = choose|nv: ValueV, cm: int|
                        #[trigger] run_mid(PipeOut::Val(nv), cm) && pipe_runs(
                            f.on_set.steps@,
                            v,
                            ctx,
                            c0,
                            PipeOut::Val(nv),
                            cm,
                        ) && !conforms(nv, f.kind, f.optional) && c2 == cm;
                    assert(nv == v);
                    assert(false);
                },
                _ => {
                    assert(false);
                },
            }
        },
    }
}

} // verus!

verus! {

/// The clock never runs backwards through a step.
pub proof fn lemma_step_clock_monotone(
    s: PipeStep,
    v: ValueV,
    ctx: Map<Seq<char>, ValueV>,
    c: int,
    o: PipeOut,
    c2: int,
)
    requires
        step_runs(s, v, ctx, c, o, c2),
    ensures
        c2 >= c,
    decreases s,
{
    match s {
        PipeStep::BcryptVerify(sub) => {
            assert(decreases_to!(s => sub));
            assert(decreases_to!(*sub => sub.steps));
            assert(decreases_to!(sub.steps => sub.steps@));
            if o is Fail && pipe_runs(sub.steps@, v, ctx, c, o, c2) {
                lemma_pipe_clock_monotone(sub.steps@, v, ctx, c, o, c2);
            } else {
                let (h, cm): (ValueV, int) = choose|h: ValueV, cm: int|
                    #[trigger] run_mid(PipeOut::Val(h), cm) && pipe_runs(
                        sub.steps@,
                        v,
                        ctx,
                        c,
                        PipeOut::Val(h),
                        cm,
                    ) && c2 == cm && crate::pipeline::verdict_of(v, h, o);
                lemma_pipe_clock_monotone(sub.steps@, v, ctx, c, PipeOut::Val(h), cm);
            }
        },
        PipeStep::IfThen(test, then) => {
            assert(decreases_to!(s => test));
            assert(decreases_to!(*test => test.steps));
            assert(decreases_to!(test.steps => test.steps@));
            assert(decreases_to!(s => then));
            assert(decreases_to!(*then => then.steps));
            assert(decreases_to!(then.steps => then.steps@));
            if exists|e: PipeErr, cm: int|
                #[trigger] run_mid(PipeOut::Fail(e), cm) && pipe_runs(
                    test.steps@,
                    v,
                    ctx,
                    c,
                    PipeOut::Fail(e),
                    cm,
                ) && o == PipeOut::Val(v) && c2 == cm {
                let (e, cm): (PipeErr, int) = choose|e: PipeErr, cm: int|
                    #[trigger] run_mid(PipeOut::Fail(e), cm) && pipe_runs(
                        test.steps@,
                        v,
                        ctx,
                        c,
                        PipeOut::Fail(e),
                        cm,
                    ) && o == PipeOut::Val(v) && c2 == cm;
                lemma_pipe_clock_monotone(test.steps@, v, ctx, c, PipeOut::Fail(e), cm);
            } else {
                let (tv, cm): (ValueV, int) = choose|tv: ValueV, cm: int|
                    #[trigger] run_mid(PipeOut::Val(tv), cm) && pipe_runs(
                        test.steps@,
                        v,
                        ctx,
                        c,
                        PipeOut::Val(tv),
                        cm,
                    ) && (if truthy(tv) {
                        pipe_runs(then.steps@, v, ctx, cm, o, c2)
                    } else {
                        o == PipeOut::Val(v) && c2 == cm
                    });
                lemma_pipe_clock_monotone(test.steps@, v, ctx, c, PipeOut::Val(tv), cm);
                if truthy(tv) {
                    lemma_pipe_clock_monotone(then.steps@, v, ctx, cm, o, c2);
                }
            }
        },
        _ => {},
    }
}

/// The clock never runs backwards through a pipeline.
pub proof fn lemma_pipe_clock_monotone(
    steps: Seq<PipeStep>,
    v: ValueV,
    ctx: Map<Seq<char>, ValueV>,
    c: int,
    o: PipeOut,
    c2: int,
)
    requires
        pipe_runs(steps, v, ctx, c, o, c2),
    ensures
        c2 >= c,
    decreases steps,
{
    if steps.len() > 0 {
        if o is Fail && step_runs(steps[0], v, ctx, c, o, c2) {
            lemma_step_clock_monotone(steps[0], v, ctx, c, o, c2);
        } else {
            let (v1, cm): (ValueV, int) = choose|v1: ValueV, cm: int|
                #[trigger] run_mid(PipeOut::Val(v1), cm) && step_runs(
                    steps[0],
                    v,
                    ctx,
                    c,
                    PipeOut::Val(v1),
                    cm,
                ) && pipe_runs(steps.subrange(1, steps.len() as int), v1, ctx, cm, o, c2);
            lemma_step_clock_monotone(steps[0], v, ctx, c, PipeOut::Val(v1), cm);
            lemma_pipe_clock_monotone(steps.subrange(1, steps.len() as int), v1, ctx, cm, o, c2);
        }
    }
}

} // verus!

verus! {

/// The on-save phase never touches a field it has already passed.
pub proof fn lemma_phase_keeps_earlier(
    fields: Seq<FieldDef>,
    i: int,
    t: int,
    vals: Seq<ValueV>,
    c: int,
    fin: Seq<ValueV>,
    cb: int,
)
    requires
        0 <= t < i <= fields.len(),
        vals.len() == fields.len(),
        onsave_run(fields, i, vals, c, PhaseOut::Vals(fin, cb)),
    ensures
        fin.len() == vals.len(),
        fin[t] == vals[t],
    decreases fields.len() - i,
{
    if i >= fields.len() {
    } else {
        let ctx = crate::pipeline::ctx_of(field_names(fields), vals);
        let (nv, cm): (ValueV, int) = choose|nv: ValueV, cm: int|
            #[trigger] run_mid(PipeOut::Val(nv), cm) && pipe_runs(
                fields[i].on_save.steps@,
                vals[i],
                ctx,
                c,
                PipeOut::Val(nv),
                cm,
            ) && onsave_run(fields, i + 1, vals.update(i, nv), cm, PhaseOut::Vals(fin, cb));
        lemma_phase_keeps_earlier(fields, i + 1, t, vals.update(i, nv), cm, fin, cb);
    }
}

/// Through the on-save phase, a field whose pipeline only fills a null value
/// keeps the non-null value it already holds, whatever the other fields do.
pub proof fn lemma_fill_once_kept_by_phase(
    fields: Seq<FieldDef>,
    i: int,
    t: int,
    vals: Seq<ValueV>,
    c: int,
    fin: Seq<ValueV>,
    cb: int,
)
    requires
        0 <= i <= fields.len(),
        i <= t < fields.len(),
        vals.len() == fields.len(),
        fields[t].on_save.steps@.len() == 1,
        fields[t].on_save.steps@[0] matches PipeStep::IfThen(test, then) && test.steps@ =~= seq![
            PipeStep::IsNull,
        ] && then.steps@ =~= seq![PipeStep::Now],
        !(vals[t] is Null),
        onsave_run(fields, i, vals, c, PhaseOut::Vals(fin, cb)),
    ensures
        fin.len() == vals.len(),
        fin[t] == vals[t],
    decreases fields.len() - i,
{
    if i >= fields.len() {
    } else {
        let ctx = crate::pipeline::ctx_of(field_names(fields), vals);
        let (nv, cm): (ValueV, int) = choose|nv: ValueV, cm: int|
            #[trigger] run_mid(PipeOut::Val(nv), cm) && pipe_runs(
                fields[i].on_save.steps@,
                vals[i],
                ctx,
                c,
                PipeOut::Val(nv),
                cm,
            ) && onsave_run(fields, i + 1, vals.update(i, nv), cm, PhaseOut::Vals(fin, cb));
        if i == t {
            lemma_singleton_pipe(
                fields[t].on_save.steps@,
                vals[t],
                ctx,
                c,
                PipeOut::Val(nv),
                cm,
            );
            lemma_fill_once(
                fields[t].on_save.steps@[0],
                vals[t],
                ctx,
                c,
                PipeOut::Val(nv),
                cm,
            );
            assert(nv == vals[t]);
            assert(vals.update(t, nv) =~= vals);
            lemma_phase_keeps_earlier(fields, t + 1, t, vals, cm, fin, cb);
        } else {
            let vals2 = vals.update(i, nv);
            assert(vals2[t] == vals[t]);
            lemma_fill_once_kept_by_phase(fields, i + 1, t, vals2, cm, fin, cb);
        }
    }
}

/// Across a whole update save that succeeds, a field assigned once through a
/// null-filling pipeline never changes value again.
pub proof fn lemma_created_stamp_kept(
    m: ModelDef,
    t: int,
    ob: ObjV,
    st: StV,
    ob2: ObjV,
    st2: StV,
)
    requires
        core_saved(m, ob, st, ob2, st2, Ok::<(), SaveError>(())),
        ob.saved,
        ob.vals.len() == m.fields@.len(),
        0 <= t < m.fields@.len(),
        m.fields@[t].on_save.steps@.len() == 1,
        m.fields@[t].on_save.steps@[0] matches PipeStep::IfThen(test, then) && test.steps@ =~= seq![
            PipeStep::IsNull,
        ] && then.steps@ =~= seq![PipeStep::Now],
        !(ob.vals[t] is Null),
    ensures
        ob2.vals[t] == ob.vals[t],
{
    let (mid, c1): (Seq<ValueV>, int) = choose|mid: Seq<ValueV>, c1: int|
        #[trigger] phase_mid(PhaseOut::Vals(mid, c1)) && (mid == ob.vals && c1 == st.clock) && (
        exists|fin: Seq<ValueV>, cb: int|
            #[trigger] phase_mid(PhaseOut::Vals(fin, cb)) && onsave_run(
                m.fields@,
                0,
                mid,
                c1,
                PhaseOut::Vals(fin, cb),
            ) && st2.clock == cb && saved_commit(
                m,
                fin,
                ob.rid,
                st.recs,
                st.nid,
                ob2,
                st2.recs,
                st2.nid,
            ));
    let (fin, cb): (Seq<ValueV>, int) = choose|fin: Seq<ValueV>, cb: int|
        #[trigger] phase_mid(PhaseOut::Vals(fin, cb)) && onsave_run(
            m.fields@,
            0,
            mid,
            c1,
            PhaseOut::Vals(fin, cb),
        ) && st2.clock == cb && saved_commit(m, fin, ob.rid, st.recs, st.nid, ob2, st2.recs, st2.nid);
    lemma_fill_once_kept_by_phase(m.fields@, 0, t, ob.vals, c1, fin, cb);
    let rid: int = match ob.rid {
        Some(id) => id as int,
        None => st.nid,
    };
    assert(ob2.vals == crate::object::assign_auto(m.fields@, fin, rid));
    assert(ob2.vals[t] == fin[t]);
}

} // verus!

verus! {

/// Through the on-save phase, a field whose pipeline is one clock reading is
/// assigned a tick no older than the phase's start.
pub proof fn lemma_now_fresh_in_phase(
    fields: Seq<FieldDef>,
    i: int,
    t: int,
    vals: Seq<ValueV>,
    c: int,
    fin: Seq<ValueV>,
    cb: int,
)
    requires
        0 <= i <= t < fields.len(),
        vals.len() == fields.len(),
        fields[t].on_save.steps@ =~= seq![PipeStep::Now],
        onsave_run(fields, i, vals, c, PhaseOut::Vals(fin, cb)),
    ensures
        fin.len() == vals.len(),
        exists|ct: int| #[trigger] next_tick(ct) >= ct && ct >= c && fin[t] == ValueV::DateTime(ct),
    decreases fields.len() - i,
{
    let ctx = crate::pipeline::ctx_of(field_names(fields), vals);
    let (nv, cm): (ValueV, int) = choose|nv: ValueV, cm: int|
        #[trigger] run_mid(PipeOut::Val(nv), cm) && pipe_runs(
            fields[i].on_save.steps@,
            vals[i],
            ctx,
            c,
            PipeOut::Val(nv),
            cm,
        ) && onsave_run(fields, i + 1, vals.update(i, nv), cm, PhaseOut::Vals(fin, cb));
    if i == t {
        lemma_singleton_pipe(fields[t].on_save.steps@, vals[t], ctx, c, PipeOut::Val(nv), cm);
        assert(nv == ValueV::DateTime(c));
        lemma_phase_keeps_earlier(fields, t + 1, t, vals.update(t, nv), cm, fin, cb);
        assert(next_tick(c) >= c && c >= c && fin[t] == ValueV::DateTime(c));
    } else {
        lemma_pipe_clock_monotone(fields[i].on_save.steps@, vals[i], ctx, c, PipeOut::Val(nv), cm);
        lemma_now_fresh_in_phase(fields, i + 1, t, vals.update(i, nv), cm, fin, cb);
        let ct = choose|ct: int|
            #[trigger] next_tick(ct) >= ct && ct >= cm && fin[t] == ValueV::DateTime(ct);
        assert(next_tick(ct) >= ct && ct >= c && fin[t] == ValueV::DateTime(ct));
    }
}

/// Across a whole update save that succeeds, a field refreshed by an
/// unconditional clock reading changes value whenever it held an older tick.
pub proof fn lemma_update_stamp_fresh(
    m: ModelDef,
    t: int,
    d: int,
    ob: ObjV,
    st: StV,
    ob2: ObjV,
    st2: StV,
)
    requires
        core_saved(m, ob, st, ob2, st2, Ok::<(), SaveError>(())),
        ob.saved,
        ob.vals.len() == m.fields@.len(),
        0 <= t < m.fields@.len(),
        m.fields@[t].on_save.steps@ =~= seq![PipeStep::Now],
        ob.vals[t] == ValueV::DateTime(d),
        d < st.clock,
    ensures
        ob2.vals[t] != ob.vals[t],
{
    let (mid, c1): (Seq<ValueV>, int) = choose|mid: Seq<ValueV>, c1: int|
        #[trigger] phase_mid(PhaseOut::Vals(mid, c1)) && (mid == ob.vals && c1 == st.clock) && (
        exists|fin: Seq<ValueV>, cb: int|
            #[trigger] phase_mid(PhaseOut::Vals(fin, cb)) && onsave_run(
                m.fields@,
                0,
                mid,
                c1,
                PhaseOut::Vals(fin, cb),
            ) && st2.clock == cb && saved_commit(
                m,
                fin,
                ob.rid,
                st.recs,
                st.nid,
                ob2,
                st2.recs,
                st2.nid,
            ));
    let (fin, cb): (Seq<ValueV>, int) = choose|fin: Seq<ValueV>, cb: int|
        #[trigger] phase_mid(PhaseOut::Vals(fin, cb)) && onsave_run(
            m.fields@,
            0,
            mid,
            c1,
            PhaseOut::Vals(fin, cb),
        ) && st2.clock == cb && saved_commit(m, fin, ob.rid, st.recs, st.nid, ob2, st2.recs, st2.nid);
    lemma_now_fresh_in_phase(m.fields@, 0, t, ob.vals, c1, fin, cb);
    let ct = choose|ct: int|
        #[trigger] next_tick(ct) >= ct && ct >= c1 && fin[t] == ValueV::DateTime(ct);
    let rid: int = match ob.rid {
        Some(id) => id as int,
        None => st.nid,
    };
    assert(ob2.vals == crate::object::assign_auto(m.fields@, fin, rid));
    assert(ob2.vals[t] == fin[t]);
    assert(ct > d);
}

} // verus!

verus! {

/// The default-computation phase never touches a field that already holds a
/// non-null value: a caller-supplied value suppresses the default.
pub proof fn lemma_defaults_keep_nonnull(
    fields: Seq<FieldDef>,
    i: int,
    t: int,
    vals: Seq<ValueV>,
    c: int,
    fin: Seq<ValueV>,
    cb: int,
)
    requires
        0 <= i <= fields.len(),
        0 <= t < fields.len(),
        vals.len() == fields.len(),
        !(vals[t] is Null),
        defaults_run(fields, i, vals, c, PhaseOut::Vals(fin, cb)),
    ensures
        fin.len() == vals.len(),
        fin[t] == vals[t],
    decreases fields.len() - i,
{
    if i >= fields.len() {
    } else {
        let ctx = crate::pipeline::ctx_of(field_names(fields), vals);
        if vals[i] is Null {
            match fields[i].default {
                FieldDefault::Absent => {
                    lemma_defaults_keep_nonnull(fields, i + 1, t, vals, c, fin, cb);
                },
                FieldDefault::Fixed(d) => {
                    let vals2 = vals.update(i, crate::value::vview(d));
                    assert(vals2[t] == vals[t]);
                    lemma_defaults_keep_nonnull(fields, i + 1, t, vals2, c, fin, cb);
                },
                FieldDefault::Computed(p) => {
                    let (nv, cm): (ValueV, int) = choose|nv: ValueV, cm: int|
                        #[trigger] run_mid(PipeOut::Val(nv), cm) && pipe_runs(
                            p.steps@,
                            ValueV::Null,
                            ctx,
                            c,
                            PipeOut::Val(nv),
                            cm,
                        ) && defaults_run(fields, i + 1, vals.update(i, nv), cm, PhaseOut::Vals(fin, cb));
                    let vals2 = vals.update(i, nv);
                    assert(vals2[t] == vals[t]);
                    lemma_defaults_keep_nonnull(fields, i + 1, t, vals2, cm, fin, cb);
                },
            }
        } else {
            lemma_defaults_keep_nonnull(fields, i + 1, t, vals, c, fin, cb);
        }
    }
}

} // verus!
