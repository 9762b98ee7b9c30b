use vstd::prelude::*;

verus! {

/// Declared type of a field: every value a field holds must conform to it.
pub enum FieldKind {
    Bool,
    Int,
    Str,
    DateTime,
    Id,
    Choice(String),
    List(Box<FieldKind>),
}

/// Tagged union used for all field input and output.
pub enum Value {
    Null,
    Bool(bool),
    Int(i64),
    Str(String),
    DateTime(u64),
    Id(u64),
    Choice(String),
    List(Vec<Value>),
}

/// Mathematical model of a `Value`.
pub enum ValueV {
    Null,
    Bool(bool),
    Int(int),
    Str(Seq<char>),
    DateTime(int),
    Id(int),
    Choice(Seq<char>),
    List(Seq<ValueV>),
}

/// Abstraction of a value.
pub open spec fn vview(v: Value) -> ValueV
    decreases v,
{
    match v {
        Value::Null => ValueV::Null,
        Value::Bool(b) => ValueV::Bool(b),
        Value::Int(i) => ValueV::Int(i as int),
        Value::Str(s) => ValueV::Str(s@),
        Value::DateTime(t) => ValueV::DateTime(t as int),
        Value::Id(n) => ValueV::Id(n as int),
        Value::Choice(c) => ValueV::Choice(c@),
        Value::List(items) => ValueV::List(vview_seq(items@)),
    }
}

/// Abstraction of a sequence of values.
pub open spec fn vview_seq(s: Seq<Value>) -> Seq<ValueV>
    decreases s,
{
    if s.len() == 0 {
        Seq::empty()
    } else {
        vview_seq(s.subrange(0, s.len() - 1)).push(vview(s[s.len() - 1]))
    }
}

/// The abstraction of a sequence is pointwise.
pub proof fn lemma_vview_seq(s: Seq<Value>)
    ensures
        vview_seq(s).len() == s.len(),
        forall|i: int| 0 <= i < s.len() ==> vview_seq(s)[i] == vview(s[i]),
    decreases s.len(),
{
    if s.len() > 0 {
        lemma_vview_seq(s.subrange(0, s.len() - 1));
        assert forall|i: int| 0 <= i < s.len() implies vview_seq(s)[i] == vview(s[i]) by {
            if i < s.len() - 1 {
                assert(s.subrange(0, s.len() - 1)[i] == s[i]);
            }
        }
    }
}

impl DeepView for Value {
    type V = ValueV;

    open spec fn deep_view(&self) -> ValueV {
        vview(*self)
    }
}

impl Clone for Value {
    /// A clone denotes the same abstract value.
    #[verifier::loop_isolation(false)]
    fn clone(&self) -> (r: Value)
        ensures
            vview(r) == vview(*self),
        decreases self,
    {
        match self {
            Value::Null => Value::Null,
            Value::Bool(b) => Value::Bool(*b),
            Value::Int(i) => Value::Int(*i),
            Value::Str(s) => Value::Str(s.clone()),
            Value::DateTime(t) => Value::DateTime(*t),
            Value::Id(n) => Value::Id(*n),
            Value::Choice(c) => Value::Choice(c.clone()),
            Value::List(items) => {
                proof {
                    lemma_vview_seq(items@);
                }
                let mut out: Vec<Value> = Vec::new();
                let mut j: usize = 0;
                while j < items.len()
                    invariant
                        0 <= j <= items.len(),
                        out@.len() == j,
                        forall|i: int|
                            0 <= i < j ==> vview(#[trigger] out@[i]) == vview(items@[i]),
                    decreases items@.len() - j,
                {
                    proof {
                        assert(decreases_to!(*self => self->List_0));
                        assert(decreases_to!(self->List_0 => self->List_0@));
                        assert(decreases_to!(self->List_0@ => self->List_0@[j as int]));
                    }
                    let c = items[j].clone();
                    out.push(c);
                    j = j + 1;
                }
                proof {
                    lemma_vview_seq(out@);
                    assert(vview_seq(out@) =~= vview_seq(items@));
                }
                Value::List(out)
            },
        }
    }
}

impl Value {
    /// Whether this value is the null value.
    pub fn is_null(&self) -> (r: bool)
        ensures
            r == (vview(*self) is Null),
    {
        match self {
            Value::Null => true,
            _ => false,
        }
    }
}

/// Whether a value conforms to a declared field type; `optional` admits null.
pub open spec fn conforms(v: ValueV, k: FieldKind, optional: bool) -> bool
    decreases k,
{
    match v {
        ValueV::Null => optional,
        ValueV::Bool(_) => k is Bool,
        ValueV::Int(_) => k is Int,
        ValueV::Str(_) => k is Str,
        ValueV::DateTime(_) => k is DateTime,
        ValueV::Id(_) => k is Id,
        ValueV::Choice(_) => k is Choice,
        ValueV::List(items) => match k {
            FieldKind::List(elem) => forall|i: int|
                0 <= i < items.len() ==> conforms(#[trigger] items[i], *elem, false),
            _ => false,
        },
    }
}

/// Checks conformance of a value to a declared type.
#[verifier::loop_isolation(false)]
pub fn check_conforms(v: &Value, k: &FieldKind, optional: bool) -> (r: bool)
    ensures
        r == conforms(vview(*v), *k, optional),
    decreases v,
{
    match v {
        Value::Null => optional,
        Value::Bool(_) => matches!(k, FieldKind::Bool),
        Value::Int(_) => matches!(k, FieldKind::Int),
        Value::Str(_) => matches!(k, FieldKind::Str),
        Value::DateTime(_) => matches!(k, FieldKind::DateTime),
        Value::Id(_) => matches!(k, FieldKind::Id),
        Value::Choice(_) => matches!(k, FieldKind::Choice(_)),
        Value::List(items) => match k {
            FieldKind::List(elem) => {
                proof {
                    lemma_vview_seq(items@);
                }
                let ghost vs = vview_seq(items@);
                let mut j: usize = 0;
                let mut ok: bool = true;
                while j < items.len()
                    invariant
                        0 <= j <= items.len(),
                        vs == vview_seq(items@),
                        vs.len() == items@.len(),
                        forall|i: int| 0 <= i < items@.len() ==> vs[i] == vview(items@[i]),
                        ok == forall|i: int|
                            0 <= i < j ==> conforms(#[trigger] vs[i], **elem, false),
                    decreases items@.len() - j,
                {
                    proof {
                        assert(decreases_to!(*v => v->List_0));
                        assert(decreases_to!(v->List_0 => v->List_0@));
                        assert(decreases_to!(v->List_0@ => v->List_0@[j as int]));
                    }
                    let c = check_conforms(&items[j], elem, false);
                    proof {
                        assert(vs[j as int] == vview(items@[j as int]));
                        assert(c == conforms(vs[j as int], **elem, false));
                    }
                    ok = ok && c;
                    j = j + 1;
                }
                proof {
                    assert(vview(*v) == ValueV::List(vs));
                    if ok {
                        assert forall|i: int| 0 <= i < vs.len() implies conforms(
                            #[trigger] vs[i],
                            *(k->List_0),
                            false,
                        ) by {
                            assert(conforms(vs[i], **elem, false));
                        }
                        assert(conforms(vview(*v), *k, optional));
                    } else {
                        assert(!(forall|i: int|
                            0 <= i < vs.len() ==> conforms(#[trigger] vs[i], **elem, false)));
                        let i0 = choose|i: int|
                            0 <= i < vs.len() && !conforms(#[trigger] vs[i], **elem, false);
                        assert(!conforms(vs[i0], *(k->List_0), false));
                        assert(vview(*v)->List_0 == vs);
                        assert(!conforms(vview(*v)->List_0[i0], *(k->List_0), false));
                        assert(!(forall|i: int|
                            0 <= i < vview(*v)->List_0.len() ==> conforms(
                                #[trigger] vview(*v)->List_0[i],
                                *(k->List_0),
                                false,
                            )));
                        assert(!conforms(vview(*v), *k, optional));
                    }
                    assert(ok == conforms(vview(*v), *k, optional));
                }
                ok
            },
            _ => false,
        },
    }
}

/// Deep equality of two values.
#[verifier::loop_isolation(false)]
pub fn value_eq(a: &Value, b: &Value) -> (r: bool)
    ensures
        r == (vview(*a) == vview(*b)),
    decreases a,
{
    match (a, b) {
        (Value::Null, Value::Null) => true,
        (Value::Bool(x), Value::Bool(y)) => x == y,
        (Value::Int(x), Value::Int(y)) => x == y,
        (Value::Str(x), Value::Str(y)) => *x == *y,
        (Value::DateTime(x), Value::DateTime(y)) => x == y,
        (Value::Id(x), Value::Id(y)) => x == y,
        (Value::Choice(x), Value::Choice(y)) => *x == *y,
        (Value::List(xs), Value::List(ys)) => {
            proof {
                lemma_vview_seq(xs@);
                lemma_vview_seq(ys@);
            }
            let ghost av = vview_seq(xs@);
            let ghost bv = vview_seq(ys@);
            if xs.len() != ys.len() {
                false
            } else {
                let mut j: usize = 0;
                let mut eq: bool = true;
                while j < xs.len()
                    invariant
                        0 <= j <= xs.len(),
                        xs@.len() == ys@.len(),
                        av == vview_seq(xs@),
                        bv == vview_seq(ys@),
                        av.len() == xs@.len(),
                        bv.len() == ys@.len(),
                        forall|i: int| 0 <= i < xs@.len() ==> av[i] == vview(xs@[i]),
                        forall|i: int| 0 <= i < ys@.len() ==> bv[i] == vview(ys@[i]),
                        eq == forall|i: int| 0 <= i < j ==> #[trigger] av[i] == bv[i],
                    decreases xs@.len() - j,
                {
                    proof {
                        assert(decreases_to!(*a => a->List_0));
                        assert(decreases_to!(a->List_0 => a->List_0@));
                        assert(decreases_to!(a->List_0@ => a->List_0@[j as int]));
                    }
                    let c = value_eq(&xs[j], &ys[j]);
                    proof {
                        assert(av[j as int] == vview(xs@[j as int]));
                        assert(bv[j as int] == vview(ys@[j as int]));
                        assert(c == (av[j as int] == bv[j as int]));
                    }
                    eq = eq && c;
                    j = j + 1;
                }
                proof {
                    if eq {
                        assert(av =~= bv);
                    } else {
                        let i0 = choose|i: int| 0 <= i < xs@.len() && #[trigger] av[i] != bv[i];
                        assert(av[i0] != bv[i0]);
                        assert(av != bv);
                    }
                }
                eq
            }
        },
        _ => {
            assert(vview(*a) != vview(*b));
            false
        },
    }
}

} // verus!

verus! {

/// Updating one element and abstracting commute.
pub proof fn lemma_vview_update(s: Seq<Value>, i: int, x: Value)
    requires
        0 <= i < s.len(),
    ensures
        vview_seq(s.update(i, x)) == vview_seq(s).update(i, vview(x)),
{
    lemma_vview_seq(s);
    lemma_vview_seq(s.update(i, x));
    assert(vview_seq(s.update(i, x)) =~= vview_seq(s).update(i, vview(x)));
}

/// A copy of a value list denotes the same abstract values.
pub fn clone_values(v: &Vec<Value>) -> (r: Vec<Value>)
    ensures
        vview_seq(r@) == vview_seq(v@),
        r@.len() == v@.len(),
{
    proof {
        lemma_vview_seq(v@);
    }
    let mut out: Vec<Value> = Vec::new();
    let mut j: usize = 0;
    #[verifier::loop_isolation(false)]
    while j < v.len()
        invariant
            0 <= j <= v@.len(),
            out@.len() == j,
            forall|i: int| 0 <= i < j ==> vview(#[trigger] out@[i]) == vview(v@[i]),
        decreases v@.len() - j,
    {
        let c = v[j].clone();
        out.push(c);
        j = j + 1;
    }
    proof {
        lemma_vview_seq(out@);
        assert(vview_seq(out@) =~= vview_seq(v@));
    }
    out
}

} // verus!
