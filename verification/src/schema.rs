use vstd::prelude::*;

use crate::pipeline::{distinct_names, Pipeline};
use crate::value::{FieldKind, Value};

verus! {

/// How a field with no caller-supplied value is filled on creation.
pub enum FieldDefault {
    /// No default: the field stays null until something assigns it.
    Absent,
    /// A fixed value.
    Fixed(Value),
    /// A pipeline computed from sibling field values, run on a null input.
    Computed(Pipeline),
}

/// A named, typed attribute of a model.
pub struct FieldDef {
    pub name: String,
    pub kind: FieldKind,
    /// A null value is acceptable after pipelines run.
    pub optional: bool,
    /// External assignment is rejected.
    pub readonly: bool,
    /// The value is never handed out.
    pub writeonly: bool,
    /// The value is engine-managed and never handed out.
    pub internal: bool,
    /// The value is never persisted.
    pub temp: bool,
    /// Exactly one non-null assignment is accepted.
    pub write_once: bool,
    /// No two persisted records may share this field's value.
    pub unique: bool,
    /// Assigned by the engine at first save with a fresh identifier.
    pub auto: bool,
    /// The lookup key of an authenticable principal.
    pub auth_identity: bool,
    pub default: FieldDefault,
    /// Runs when the field is assigned.
    pub on_set: Pipeline,
    /// Runs on every save.
    pub on_save: Pipeline,
    /// Runs only during authentication, against the candidate credential.
    pub auth_by: Option<Pipeline>,
}

impl FieldDef {
    /// A plain required field of the given type, with empty pipelines.
    pub fn new(name: String, kind: FieldKind) -> (r: FieldDef)
        ensures
            r.name == name,
            r.kind == kind,
            !r.optional && !r.readonly && !r.writeonly && !r.internal && !r.temp,
            !r.write_once && !r.unique && !r.auto && !r.auth_identity,
            r.default is Absent,
            r.on_set.steps@.len() == 0,
            r.on_save.steps@.len() == 0,
            r.auth_by is None,
    {
        FieldDef {
            name,
            kind,
            optional: false,
            readonly: false,
            writeonly: false,
            internal: false,
            temp: false,
            write_once: false,
            unique: false,
            auto: false,
            auth_identity: false,
            default: FieldDefault::Absent,
            on_set: Pipeline { steps: Vec::new() },
            on_save: Pipeline { steps: Vec::new() },
            auth_by: None,
        }
    }
}

/// A link from one model to another, resolved through key fields.
pub struct RelationDef {
    pub name: String,
    /// A collection of targets rather than a single one.
    pub collection: bool,
    pub target: String,
    pub local_fields: Vec<String>,
    pub foreign_fields: Vec<String>,
    /// The join model of a many-to-many relation.
    pub through: Option<String>,
}

/// An ordered set of named choices.
pub struct EnumDef {
    pub name: String,
    pub choices: Vec<String>,
}

/// One effect of a lifecycle hook.
pub enum HookAction {
    /// Assign a field through the ordinary `set` path.
    Assign(String, Value),
    /// Save the object again from within the hook.
    SaveAgain,
}

/// A persisted record type.
pub struct ModelDef {
    pub name: String,
    pub table: String,
    pub fields: Vec<FieldDef>,
    pub relations: Vec<RelationDef>,
    pub primary: Vec<String>,
    /// Marks the model as an authenticable principal type.
    pub identity: bool,
    /// Runs after the first successful save of an object.
    pub on_created: Vec<HookAction>,
    /// Runs after every later successful save.
    pub on_updated: Vec<HookAction>,
}

/// The names of a field list, in order.
pub open spec fn field_names(fields: Seq<FieldDef>) -> Seq<Seq<char>> {
    Seq::new(fields.len(), |i: int| fields[i].name@)
}

/// Whether a field list holds a field of the given name.
pub open spec fn has_field(fields: Seq<FieldDef>, name: Seq<char>) -> bool {
    exists|i: int| 0 <= i < fields.len() && fields[i].name@ == name
}

/// Whether a model list holds a model of the given name.
pub open spec fn has_model(models: Seq<ModelDef>, name: Seq<char>) -> bool {
    exists|i: int| 0 <= i < models.len() && models[i].name@ == name
}

/// Whether an enum list holds an enum of the given name.
pub open spec fn has_enum(enums: Seq<EnumDef>, name: Seq<char>) -> bool {
    exists|i: int| 0 <= i < enums.len() && enums[i].name@ == name
}

/// A relation is sound inside its graph: its target and join models exist,
/// and its local key fields name fields of the owning model.
pub open spec fn relation_wf(models: Seq<ModelDef>, fields: Seq<FieldDef>, r: RelationDef) -> bool {
    &&& has_model(models, r.target@)
    &&& (r.through matches Some(t) ==> has_model(models, t@))
    &&& forall|i: int|
        0 <= i < r.local_fields@.len() ==> has_field(fields, #[trigger] r.local_fields@[i]@)
}

/// A model is sound inside its graph.
pub open spec fn model_wf(models: Seq<ModelDef>, enums: Seq<EnumDef>, m: ModelDef) -> bool {
    &&& distinct_names(field_names(m.fields@))
    &&& m.primary@.len() > 0
    &&& forall|i: int| 0 <= i < m.primary@.len() ==> has_field(m.fields@, #[trigger] m.primary@[i]@)
    &&& forall|i: int|
        0 <= i < m.relations@.len() ==> relation_wf(models, m.fields@, #[trigger] m.relations@[i])
    &&& forall|i: int|
        0 <= i < m.fields@.len() ==> ((#[trigger] m.fields@[i].kind) matches FieldKind::Choice(e)
            ==> has_enum(enums, e@))
}

/// The whole registry is sound: names are unique and references resolve.
pub open spec fn graph_wf(models: Seq<ModelDef>, enums: Seq<EnumDef>) -> bool {
    &&& distinct_names(Seq::new(models.len(), |i: int| models[i].name@))
    &&& forall|i: int| 0 <= i < models.len() ==> model_wf(models, enums, #[trigger] models[i])
}

/// Why the registry could not be built.
#[derive(Clone, Copy, PartialEq, Eq, Structural, Debug)]
pub enum SchemaError {
    DuplicateModel,
    DuplicateField,
    EmptyPrimaryKey,
    UnknownPrimaryField,
    DanglingRelation,
    UnknownEnum,
}

/// The immutable post-boot registry of models and enums.
pub struct Graph {
    pub models: Vec<ModelDef>,
    pub enums: Vec<EnumDef>,
}

} // verus!

verus! {

/// Whether any two fields share a name.
#[verifier::loop_isolation(false)]
fn fields_distinct(fields: &Vec<FieldDef>) -> (r: bool)
    ensures
        r == distinct_names(field_names(fields@)),
{
    let n = fields.len();
    let mut a: usize = 0;
    while a < n
        invariant
            0 <= a <= n,
            n == fields@.len(),
            forall|i: int, j: int|
                0 <= i < j < fields@.len() && i < a ==> field_names(fields@)[i] != field_names(
                    fields@,
                )[j],
        decreases n - a,
    {
        let mut b: usize = a + 1;
        while b < n
            invariant
                0 <= a < b <= n,
                n == fields@.len(),
                forall|j: int|
                    a < j < b ==> field_names(fields@)[a as int] != field_names(fields@)[j],
                forall|i: int, j: int|
                    0 <= i < j < fields@.len() && i < a ==> field_names(fields@)[i] != field_names(
                        fields@,
                    )[j],
            decreases n - b,
        {
            if fields[a].name == fields[b].name {
                proof {
                    assert(field_names(fields@)[a as int] == field_names(fields@)[b as int]);
                }
                return false;
            }
            b = b + 1;
        }
        a = a + 1;
    }
    true
}

/// Whether any two models share a name.
#[verifier::loop_isolation(false)]
fn models_distinct(models: &Vec<ModelDef>) -> (r: bool)
    ensures
        r == distinct_names(Seq::new(models@.len(), |i: int| models@[i].name@)),
{
    let ghost nv = Seq::new(models@.len(), |i: int| models@[i].name@);
    let n = models.len();
    let mut a: usize = 0;
    while a < n
        invariant
            0 <= a <= n,
            n == models@.len(),
            nv == Seq::new(models@.len(), |i: int| models@[i].name@),
            forall|i: int, j: int| 0 <= i < j < nv.len() && i < a ==> nv[i] != nv[j],
        decreases n - a,
    {
        let mut b: usize = a + 1;
        while b < n
            invariant
                0 <= a < b <= n,
                n == models@.len(),
                nv == Seq::new(models@.len(), |i: int| models@[i].name@),
                forall|j: int| a < j < b ==> nv[a as int] != nv[j],
                forall|i: int, j: int| 0 <= i < j < nv.len() && i < a ==> nv[i] != nv[j],
            decreases n - b,
        {
            if models[a].name == models[b].name {
                proof {
                    assert(nv[a as int] == nv[b as int]);
                }
                return false;
            }
            b = b + 1;
        }
        a = a + 1;
    }
    true
}

/// Whether a field of the given name exists.
fn exists_field(fields: &Vec<FieldDef>, name: &String) -> (r: bool)
    ensures
        r == has_field(fields@, name@),
{
    let mut i: usize = 0;
    while i < fields.len()
        invariant
            0 <= i <= fields@.len(),
            forall|j: int| 0 <= j < i ==> fields@[j].name@ != name@,
        decreases fields@.len() - i,
    {
        if fields[i].name == *name {
            return true;
        }
        i = i + 1;
    }
    false
}

/// Whether a model of the given name exists.
fn exists_model(models: &Vec<ModelDef>, name: &String) -> (r: bool)
    ensures
        r == has_model(models@, name@),
{
    let mut i: usize = 0;
    while i < models.len()
        invariant
            0 <= i <= models@.len(),
            forall|j: int| 0 <= j < i ==> models@[j].name@ != name@,
        decreases models@.len() - i,
    {
        if models[i].name == *name {
            return true;
        }
        i = i + 1;
    }
    false
}

/// Whether an enum of the given name exists.
fn exists_enum(enums: &Vec<EnumDef>, name: &String) -> (r: bool)
    ensures
        r == has_enum(enums@, name@),
{
    let mut i: usize = 0;
    while i < enums.len()
        invariant
            0 <= i <= enums@.len(),
            forall|j: int| 0 <= j < i ==> enums@[j].name@ != name@,
        decreases enums@.len() - i,
    {
        if enums[i].name == *name {
            return true;
        }
        i = i + 1;
    }
    false
}

/// Validates one model against the whole registry.
#[verifier::loop_isolation(false)]
fn check_model(models: &Vec<ModelDef>, enums: &Vec<EnumDef>, m: &ModelDef) -> (r: Result<
    (),
    SchemaError,
>)
    ensures
        r is Ok <==> model_wf(models@, enums@, *m),
        r matches Err(e) ==> (e is DuplicateField || e is EmptyPrimaryKey
            || e is UnknownPrimaryField || e is DanglingRelation || e is UnknownEnum),
{
    if !fields_distinct(&m.fields) {
        return Err(SchemaError::DuplicateField);
    }
    if m.primary.len() == 0 {
        return Err(SchemaError::EmptyPrimaryKey);
    }
    let mut i: usize = 0;
    while i < m.primary.len()
        invariant
            0 <= i <= m.primary@.len(),
            forall|j: int| 0 <= j < i ==> has_field(m.fields@, #[trigger] m.primary@[j]@),
        decreases m.primary@.len() - i,
    {
        if !exists_field(&m.fields, &m.primary[i]) {
            return Err(SchemaError::UnknownPrimaryField);
        }
        i = i + 1;
    }
    let mut i: usize = 0;
    while i < m.relations.len()
        invariant
            0 <= i <= m.relations@.len(),
            forall|j: int|
                0 <= j < i ==> relation_wf(models@, m.fields@, #[trigger] m.relations@[j]),
        decreases m.relations@.len() - i,
    {
        let rel = &m.relations[i];
        if !exists_model(models, &rel.target) {
            return Err(SchemaError::DanglingRelation);
        }
        match &rel.through {
            Some(t) => {
                if !exists_model(models, t) {
                    return Err(SchemaError::DanglingRelation);
                }
            },
            None => {},
        }
        let mut k: usize = 0;
        while k < rel.local_fields.len()
            invariant
                0 <= k <= rel.local_fields@.len(),
                forall|j: int|
                    0 <= j < k ==> has_field(m.fields@, #[trigger] rel.local_fields@[j]@),
            decreases rel.local_fields@.len() - k,
        {
            if !exists_field(&m.fields, &rel.local_fields[k]) {
                proof {
                    assert(!has_field(m.fields@, rel.local_fields@[k as int]@));
                    assert(!relation_wf(models@, m.fields@, m.relations@[i as int]));
                }
                return Err(SchemaError::DanglingRelation);
            }
            k = k + 1;
        }
        i = i + 1;
    }
    let mut i: usize = 0;
    while i < m.fields.len()
        invariant
            0 <= i <= m.fields@.len(),
            forall|j: int|
                0 <= j < i ==> ((#[trigger] m.fields@[j].kind) matches FieldKind::Choice(e)
                    ==> has_enum(enums@, e@)),
        decreases m.fields@.len() - i,
    {
        match &m.fields[i].kind {
            FieldKind::Choice(e) => {
                if !exists_enum(enums, e) {
                    return Err(SchemaError::UnknownEnum);
                }
            },
            _ => {},
        }
        i = i + 1;
    }
    Ok(())
}

impl Graph {
    /// Builds the registry once at boot: every reference must resolve and
    /// every name must be unique, or nothing is built.
    pub fn build(models: Vec<ModelDef>, enums: Vec<EnumDef>) -> (r: Result<Graph, SchemaError>)
        ensures
            r matches Ok(g) ==> g.models == models && g.enums == enums && graph_wf(
                models@,
                enums@,
            ),
            r is Err ==> !graph_wf(models@, enums@),
    {
        if !models_distinct(&models) {
            return Err(SchemaError::DuplicateModel);
        }
        let mut i: usize = 0;
        while i < models.len()
            invariant
                0 <= i <= models@.len(),
                forall|j: int| 0 <= j < i ==> model_wf(models@, enums@, #[trigger] models@[j]),
            decreases models@.len() - i,
        {
            match check_model(&models, &enums, &models[i]) {
                Ok(()) => {},
                Err(e) => {
                    return Err(e);
                },
            }
            i = i + 1;
        }
        Ok(Graph { models, enums })
    }
}

} // verus!
