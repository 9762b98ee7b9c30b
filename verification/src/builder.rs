use vstd::prelude::*;

use crate::pipeline::{PipeStep, Pipeline};
use crate::schema::{EnumDef, FieldDef, FieldDefault, HookAction, ModelDef, RelationDef};
use crate::value::Value;

verus! {

impl Pipeline {
    /// An empty pipeline: it passes every value through unchanged.
    pub fn new() -> (r: Pipeline)
        ensures
            r.steps@.len() == 0,
    {
        Pipeline { steps: Vec::new() }
    }

    /// Appends a step.
    pub fn step(self, s: PipeStep) -> (r: Pipeline)
        ensures
            r.steps@ == self.steps@.push(s),
    {
        let mut p = self;
        p.steps.push(s);
        p
    }

    /// Appends a clock reading.
    pub fn now(self) -> (r: Pipeline)
        ensures
            r.steps@ == self.steps@.push(PipeStep::Now),
    {
        self.step(PipeStep::Now)
    }

    /// Appends a null test.
    pub fn is_null(self) -> (r: Pipeline)
        ensures
            r.steps@ == self.steps@.push(PipeStep::IsNull),
    {
        self.step(PipeStep::IsNull)
    }

    /// Appends an integer addition.
    pub fn add_int(self, k: i64) -> (r: Pipeline)
        ensures
            r.steps@ == self.steps@.push(PipeStep::AddInt(k)),
    {
        self.step(PipeStep::AddInt(k))
    }

    /// Appends a string prefix.
    pub fn str_prepend(self, p: String) -> (r: Pipeline)
        ensures
            r.steps@ == self.steps@.push(PipeStep::StrPrepend(p)),
    {
        self.step(PipeStep::StrPrepend(p))
    }

    /// Appends a string suffix.
    pub fn str_append(self, p: String) -> (r: Pipeline)
        ensures
            r.steps@ == self.steps@.push(PipeStep::StrAppend(p)),
    {
        self.step(PipeStep::StrAppend(p))
    }

    /// Appends a pattern validation.
    pub fn regex_match(self, p: String) -> (r: Pipeline)
        ensures
            r.steps@ == self.steps@.push(PipeStep::RegexMatch(p)),
    {
        self.step(PipeStep::RegexMatch(p))
    }

    /// Appends a pattern replacement.
    pub fn regex_replace(self, p: String, rep: String) -> (r: Pipeline)
        ensures
            r.steps@ == self.steps@.push(PipeStep::RegexReplace(p, rep)),
    {
        self.step(PipeStep::RegexReplace(p, rep))
    }

    /// Appends a fresh random digit string.
    pub fn random_digits(self, n: usize) -> (r: Pipeline)
        ensures
            r.steps@ == self.steps@.push(PipeStep::RandomDigits(n)),
    {
        self.step(PipeStep::RandomDigits(n))
    }

    /// Appends a sibling field read.
    pub fn object_value(self, f: String) -> (r: Pipeline)
        ensures
            r.steps@ == self.steps@.push(PipeStep::ObjectValueOf(f)),
    {
        self.step(PipeStep::ObjectValueOf(f))
    }

    /// Appends a length validation.
    pub fn length_between(self, lo: usize, hi: usize) -> (r: Pipeline)
        ensures
            r.steps@ == self.steps@.push(PipeStep::LengthBetween(lo, hi)),
    {
        self.step(PipeStep::LengthBetween(lo, hi))
    }

    /// Appends a salted hash of the value.
    pub fn bcrypt_salt(self) -> (r: Pipeline)
        ensures
            r.steps@ == self.steps@.push(PipeStep::BcryptSalt),
    {
        self.step(PipeStep::BcryptSalt)
    }

    /// Appends a credential verification against the hash the subpipeline
    /// yields.
    pub fn bcrypt_verify(self, sub: Pipeline) -> (r: Pipeline)
        ensures
            r.steps@.len() == self.steps@.len() + 1,
            r.steps@.subrange(0, self.steps@.len() as int) == self.steps@,
            r.steps@.last() matches PipeStep::BcryptVerify(s) && s == sub,
    {
        let ghost pre = self.steps@;
        let r = self.step(PipeStep::BcryptVerify(Box::new(sub)));
        proof {
            assert(r.steps@.subrange(0, pre.len() as int) =~= pre);
        }
        r
    }

    /// Appends a conditional: the second pipeline runs only when the first
    /// yields a truthy value.
    pub fn if_then(self, test: Pipeline, then: Pipeline) -> (r: Pipeline)
        ensures
            r.steps@.len() == self.steps@.len() + 1,
            r.steps@.subrange(0, self.steps@.len() as int) == self.steps@,
            r.steps@.last() matches PipeStep::IfThen(t, h) && t == test && h == then,
    {
        let ghost pre = self.steps@;
        let r = self.step(PipeStep::IfThen(Box::new(test), Box::new(then)));
        proof {
            assert(r.steps@.subrange(0, pre.len() as int) =~= pre);
        }
        r
    }
}

impl FieldDef {
    /// The field must hold a non-null value after pipelines run.
    pub fn required(self) -> (r: FieldDef)
        ensures
            r == (FieldDef { optional: false, ..self }),
    {
        FieldDef { optional: false, ..self }
    }

    /// A null value is acceptable.
    pub fn optional(self) -> (r: FieldDef)
        ensures
            r == (FieldDef { optional: true, ..self }),
    {
        FieldDef { optional: true, ..self }
    }

    /// External assignment is refused.
    pub fn readonly(self) -> (r: FieldDef)
        ensures
            r == (FieldDef { readonly: true, ..self }),
    {
        FieldDef { readonly: true, ..self }
    }

    /// The value is never handed out.
    pub fn writeonly(self) -> (r: FieldDef)
        ensures
            r == (FieldDef { writeonly: true, ..self }),
    {
        FieldDef { writeonly: true, ..self }
    }

    /// The value is engine-managed and never handed out.
    pub fn internal(self) -> (r: FieldDef)
        ensures
            r == (FieldDef { internal: true, ..self }),
    {
        FieldDef { internal: true, ..self }
    }

    /// The value is never persisted.
    pub fn temp(self) -> (r: FieldDef)
        ensures
            r == (FieldDef { temp: true, ..self }),
    {
        FieldDef { temp: true, ..self }
    }

    /// Exactly one non-null assignment is accepted.
    pub fn write_once(self) -> (r: FieldDef)
        ensures
            r == (FieldDef { write_once: true, ..self }),
    {
        FieldDef { write_once: true, ..self }
    }

    /// No two persisted records may share this field's value.
    pub fn unique(self) -> (r: FieldDef)
        ensures
            r == (FieldDef { unique: true, ..self }),
    {
        FieldDef { unique: true, ..self }
    }

    /// The engine assigns a fresh identifier at first save.
    pub fn auto(self) -> (r: FieldDef)
        ensures
            r == (FieldDef { auto: true, ..self }),
    {
        FieldDef { auto: true, ..self }
    }

    /// The field is the lookup key of an authenticable principal.
    pub fn auth_identity(self) -> (r: FieldDef)
        ensures
            r == (FieldDef { auth_identity: true, ..self }),
    {
        FieldDef { auth_identity: true, ..self }
    }

    /// A fixed default value for creation.
    pub fn default_value(self, v: Value) -> (r: FieldDef)
        ensures
            r == (FieldDef { default: FieldDefault::Fixed(v), ..self }),
    {
        FieldDef { default: FieldDefault::Fixed(v), ..self }
    }

    /// A default computed from sibling fields at creation.
    pub fn default_pipeline(self, p: Pipeline) -> (r: FieldDef)
        ensures
            r == (FieldDef { default: FieldDefault::Computed(p), ..self }),
    {
        FieldDef { default: FieldDefault::Computed(p), ..self }
    }

    /// The pipeline run at assignment time.
    pub fn on_set(self, p: Pipeline) -> (r: FieldDef)
        ensures
            r == (FieldDef { on_set: p, ..self }),
    {
        FieldDef { on_set: p, ..self }
    }

    /// The pipeline run on every save.
    pub fn on_save(self, p: Pipeline) -> (r: FieldDef)
        ensures
            r == (FieldDef { on_save: p, ..self }),
    {
        FieldDef { on_save: p, ..self }
    }

    /// The credential verification pipeline, run only during authentication.
    pub fn auth_by(self, p: Pipeline) -> (r: FieldDef)
        ensures
            r == (FieldDef { auth_by: Some(p), ..self }),
    {
        FieldDef { auth_by: Some(p), ..self }
    }
}

impl ModelDef {
    /// A model with no fields yet; its table name is its own name.
    pub fn new(name: String, table: String) -> (r: ModelDef)
        ensures
            r.name == name,
            r.table == table,
            r.fields@.len() == 0,
            r.relations@.len() == 0,
            r.primary@.len() == 0,
            !r.identity,
            r.on_created@.len() == 0,
            r.on_updated@.len() == 0,
    {
        ModelDef {
            name,
            table,
            fields: Vec::new(),
            relations: Vec::new(),
            primary: Vec::new(),
            identity: false,
            on_created: Vec::new(),
            on_updated: Vec::new(),
        }
    }

    /// Appends a field.
    pub fn field(self, f: FieldDef) -> (r: ModelDef)
        ensures
            r == (ModelDef { fields: r.fields, ..self }),
            r.fields@ == self.fields@.push(f),
    {
        let mut m = self;
        m.fields.push(f);
        m
    }

    /// Appends a relation.
    pub fn relation(self, rel: RelationDef) -> (r: ModelDef)
        ensures
            r == (ModelDef { relations: r.relations, ..self }),
            r.relations@ == self.relations@.push(rel),
    {
        let mut m = self;
        m.relations.push(rel);
        m
    }

    /// Sets the primary key field list.
    pub fn primary(self, keys: Vec<String>) -> (r: ModelDef)
        ensures
            r == (ModelDef { primary: keys, ..self }),
    {
        ModelDef { primary: keys, ..self }
    }

    /// Marks the model as an authenticable principal type.
    pub fn identity(self) -> (r: ModelDef)
        ensures
            r == (ModelDef { identity: true, ..self }),
    {
        ModelDef { identity: true, ..self }
    }

    /// Sets the hook run after the first successful save.
    pub fn on_created(self, actions: Vec<HookAction>) -> (r: ModelDef)
        ensures
            r == (ModelDef { on_created: actions, ..self }),
    {
        ModelDef { on_created: actions, ..self }
    }

    /// Sets the hook run after every later successful save.
    pub fn on_updated(self, actions: Vec<HookAction>) -> (r: ModelDef)
        ensures
            r == (ModelDef { on_updated: actions, ..self }),
    {
        ModelDef { on_updated: actions, ..self }
    }
}

impl EnumDef {
    /// An enum with its ordered choices.
    pub fn new(name: String, choices: Vec<String>) -> (r: EnumDef)
        ensures
            r.name == name,
            r.choices == choices,
    {
        EnumDef { name, choices }
    }
}

} // verus!
