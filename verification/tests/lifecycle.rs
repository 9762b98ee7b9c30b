use fieldpipe::object::{FieldError, Object, SaveError};
use fieldpipe::pipeline::{PipeErr, Pipeline};
use fieldpipe::schema::{FieldDef, HookAction, ModelDef};
use fieldpipe::store::Store;
use fieldpipe::value::{value_eq, FieldKind, Value};

fn s(x: &str) -> String {
    x.to_string()
}

fn stamp_fields(m: ModelDef) -> ModelDef {
    m.field(
        FieldDef::new(s("createdAt"), FieldKind::DateTime).required().readonly().on_save(
            Pipeline::new().if_then(Pipeline::new().is_null(), Pipeline::new().now()),
        ),
    )
    .field(
        FieldDef::new(s("updatedAt"), FieldKind::DateTime).required().readonly().on_save(
            Pipeline::new().now(),
        ),
    )
}

fn unit_model() -> ModelDef {
    stamp_fields(
        ModelDef::new(s("Unit"), s("units"))
            .field(FieldDef::new(s("id"), FieldKind::Id).required().readonly().auto())
            .field(
                FieldDef::new(s("num"), FieldKind::Int)
                    .default_value(Value::Int(0))
                    .on_save(Pipeline::new().add_int(1)),
            )
            .field(
                FieldDef::new(s("tag"), FieldKind::Str)
                    .default_value(Value::Str(s("")))
                    .on_save(Pipeline::new().str_prepend(s("~")).str_append(s("~"))),
            )
            .primary(vec![s("id")]),
    )
}

fn get_ok(o: &Object, m: &ModelDef, name: &str) -> Value {
    o.get(m, &s(name)).unwrap()
}

#[test]
fn readonly_field_always_refuses_set() {
    let m = unit_model();
    let mut store = Store::new();
    let mut o = Object::new(&m);
    let r = o.set(&m, &s("createdAt"), Value::DateTime(5), &mut store.clock);
    assert_eq!(r, Err(FieldError::NotWritable));
    o.save(&m, &mut store).unwrap();
    let r = o.set(&m, &s("createdAt"), Value::DateTime(5), &mut store.clock);
    assert_eq!(r, Err(FieldError::NotWritable));
    let r = o.set(&m, &s("id"), Value::Id(9), &mut store.clock);
    assert_eq!(r, Err(FieldError::NotWritable));
}

#[test]
fn write_once_accepts_one_non_null_assignment() {
    let m = ModelDef::new(s("User"), s("users"))
        .field(FieldDef::new(s("id"), FieldKind::Id).required().readonly().auto())
        .field(FieldDef::new(s("sex"), FieldKind::Choice(s("Sex"))).optional().write_once())
        .primary(vec![s("id")]);
    let mut store = Store::new();
    let mut o = Object::new(&m);
    let first = o.set(&m, &s("sex"), Value::Choice(s("MALE")), &mut store.clock);
    assert_eq!(first, Ok(()));
    let again = o.set(&m, &s("sex"), Value::Choice(s("MALE")), &mut store.clock);
    assert_eq!(again, Err(FieldError::AlreadySet));
    let other = o.set(&m, &s("sex"), Value::Choice(s("FEMALE")), &mut store.clock);
    assert_eq!(other, Err(FieldError::AlreadySet));
}

#[test]
fn created_at_is_assigned_once_and_kept() {
    let m = unit_model();
    let mut store = Store::new();
    let mut o = Object::new(&m);
    o.save(&m, &mut store).unwrap();
    let created1 = get_ok(&o, &m, "createdAt");
    let updated1 = get_ok(&o, &m, "updatedAt");
    o.save(&m, &mut store).unwrap();
    let created2 = get_ok(&o, &m, "createdAt");
    let updated2 = get_ok(&o, &m, "updatedAt");
    assert!(value_eq(&created1, &created2));
    assert!(!value_eq(&updated1, &updated2));
}

#[test]
fn updated_at_changes_on_every_save() {
    let m = unit_model();
    let mut store = Store::new();
    let mut o = Object::new(&m);
    o.save(&m, &mut store).unwrap();
    let mut last = get_ok(&o, &m, "updatedAt");
    for _ in 0..5 {
        o.save(&m, &mut store).unwrap();
        let next = get_ok(&o, &m, "updatedAt");
        assert!(!value_eq(&last, &next));
        last = next;
    }
}

#[test]
fn default_then_transform_composes_end_to_end() {
    let mut m = unit_model();
    m = m.on_created(vec![
        HookAction::Assign(s("num"), Value::Int(25)),
        HookAction::SaveAgain,
    ]);
    let mut store = Store::new();
    let mut o = Object::new(&m);
    o.save(&m, &mut store).unwrap();
    // first save: default 0 then +1 gives 1; the created hook then sets 25
    // and saves again, whose transform gives 26
    let num = get_ok(&o, &m, "num");
    assert!(value_eq(&num, &Value::Int(26)));
    // the nested save kept the creation stamp but refreshed the update stamp
    let created = get_ok(&o, &m, "createdAt");
    let updated = get_ok(&o, &m, "updatedAt");
    assert!(!value_eq(&created, &updated));
}

#[test]
fn first_save_applies_default_then_transform() {
    let m = unit_model();
    let mut store = Store::new();
    let mut o = Object::new(&m);
    o.save(&m, &mut store).unwrap();
    assert!(value_eq(&get_ok(&o, &m, "num"), &Value::Int(1)));
    assert!(value_eq(&get_ok(&o, &m, "tag"), &Value::Str(s("~~"))));
    o.save(&m, &mut store).unwrap();
    assert!(value_eq(&get_ok(&o, &m, "num"), &Value::Int(2)));
    assert!(value_eq(&get_ok(&o, &m, "tag"), &Value::Str(s("~~~~"))));
}

#[test]
fn unique_conflict_refuses_save_before_any_write() {
    let m = ModelDef::new(s("AuthCode"), s("codes"))
        .field(FieldDef::new(s("id"), FieldKind::Id).required().readonly().auto())
        .field(
            FieldDef::new(s("phoneNo"), FieldKind::Str)
                .required()
                .unique()
                .on_set(Pipeline::new().regex_match(s(r"^1\d{10}$"))),
        )
        .primary(vec![s("id")]);
    let mut store = Store::new();
    let mut a = Object::new(&m);
    a.set(&m, &s("phoneNo"), Value::Str(s("13800001234")), &mut store.clock).unwrap();
    a.save(&m, &mut store).unwrap();
    assert_eq!(store.recs.len(), 1);
    let mut b = Object::new(&m);
    b.set(&m, &s("phoneNo"), Value::Str(s("13800001234")), &mut store.clock).unwrap();
    let r = b.save(&m, &mut store);
    assert_eq!(r, Err(SaveError::UniqueConflict));
    assert_eq!(store.recs.len(), 1);
    // a save under a fresh number is accepted
    let mut c = Object::new(&m);
    c.set(&m, &s("phoneNo"), Value::Str(s("13800001235")), &mut store.clock).unwrap();
    c.save(&m, &mut store).unwrap();
    assert_eq!(store.recs.len(), 2);
    // updating the first object keeps its own value without conflicting
    a.save(&m, &mut store).unwrap();
    assert_eq!(store.recs.len(), 2);
}

#[test]
fn set_rejects_unknown_field_and_bad_types() {
    let m = unit_model();
    let mut store = Store::new();
    let mut o = Object::new(&m);
    assert_eq!(
        o.set(&m, &s("nope"), Value::Int(1), &mut store.clock),
        Err(FieldError::UnknownField)
    );
    assert_eq!(o.get(&m, &s("nope")).err(), Some(FieldError::UnknownField));
    assert_eq!(
        o.set(&m, &s("tag"), Value::Int(1), &mut store.clock),
        Err(FieldError::Mismatch)
    );
}

#[test]
fn pattern_mismatch_refuses_assignment() {
    let m = ModelDef::new(s("AuthCode"), s("codes"))
        .field(FieldDef::new(s("id"), FieldKind::Id).required().readonly().auto())
        .field(
            FieldDef::new(s("phoneNo"), FieldKind::Str)
                .required()
                .unique()
                .on_set(Pipeline::new().regex_match(s(r"^1\d{10}$"))),
        )
        .primary(vec![s("id")]);
    let mut store = Store::new();
    let mut o = Object::new(&m);
    let r = o.set(&m, &s("phoneNo"), Value::Str(s("20800001234")), &mut store.clock);
    assert_eq!(r, Err(FieldError::Validation(PipeErr::PatternMismatch)));
    let r = o.set(&m, &s("phoneNo"), Value::Str(s("1380000")), &mut store.clock);
    assert_eq!(r, Err(FieldError::Validation(PipeErr::PatternMismatch)));
    let r = o.set(&m, &s("phoneNo"), Value::Str(s("13800001234")), &mut store.clock);
    assert_eq!(r, Ok(()));
}

#[test]
fn recursion_guard_stops_hook_save_cycles() {
    // a created hook that saves again, and an updated hook that also saves
    // again: without the depth ceiling this would never end
    let m = unit_model()
        .on_created(vec![HookAction::SaveAgain])
        .on_updated(vec![HookAction::SaveAgain]);
    let mut store = Store::new();
    let mut o = Object::new(&m);
    o.save(&m, &mut store).unwrap();
    assert_eq!(store.recs.len(), 1);
}

#[test]
fn missing_required_field_refuses_save() {
    let m = ModelDef::new(s("Author"), s("authors"))
        .field(FieldDef::new(s("id"), FieldKind::Id).required().readonly().auto())
        .field(FieldDef::new(s("name"), FieldKind::Str).required())
        .primary(vec![s("id")]);
    let mut store = Store::new();
    let mut o = Object::new(&m);
    let r = o.save(&m, &mut store);
    assert_eq!(r, Err(SaveError::Mismatch));
    assert_eq!(store.recs.len(), 0);
    o.set(&m, &s("name"), Value::Str(s("someone")), &mut store.clock).unwrap();
    o.save(&m, &mut store).unwrap();
    assert_eq!(store.recs.len(), 1);
}

#[test]
fn type_confusion_in_a_pipeline_is_refused() {
    let m = ModelDef::new(s("A"), s("a"))
        .field(FieldDef::new(s("id"), FieldKind::Id).required().readonly().auto())
        .field(
            FieldDef::new(s("t"), FieldKind::Str).required().on_set(
                Pipeline::new().add_int(1),
            ),
        )
        .primary(vec![s("id")]);
    let mut store = Store::new();
    let mut o = Object::new(&m);
    let r = o.set(&m, &s("t"), Value::Str(s("x")), &mut store.clock);
    assert_eq!(r, Err(FieldError::Validation(PipeErr::TypeMismatch)));
}
