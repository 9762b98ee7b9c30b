use fieldpipe::object::{FieldError, Object, SaveError};
use fieldpipe::pipeline::{PipeErr, Pipeline};
use fieldpipe::schema::{FieldDef, ModelDef};
use fieldpipe::store::Store;
use fieldpipe::value::{value_eq, FieldKind, Value};

fn s(x: &str) -> String {
    x.to_string()
}

fn get_str(o: &Object, m: &ModelDef, name: &str) -> String {
    match o.get(m, &s(name)).unwrap() {
        Value::Str(t) => t,
        _ => panic!("expected a string value"),
    }
}

#[test]
fn random_digits_yields_fixed_width_numeric_strings() {
    let m = ModelDef::new(s("AuthCode"), s("codes"))
        .field(FieldDef::new(s("id"), FieldKind::Id).required().readonly().auto())
        .field(
            FieldDef::new(s("code"), FieldKind::Str)
                .required()
                .on_save(Pipeline::new().random_digits(4)),
        )
        .primary(vec![s("id")]);
    let mut store = Store::new();
    let mut o = Object::new(&m);
    for _ in 0..10 {
        o.save(&m, &mut store).unwrap();
        let code = get_str(&o, &m, "code");
        assert_eq!(code.chars().count(), 4);
        assert!(code.chars().all(|c| c.is_ascii_digit()));
    }
}

#[test]
fn masked_phone_display_name_is_deterministic() {
    let m = ModelDef::new(s("User"), s("users"))
        .field(FieldDef::new(s("id"), FieldKind::Id).required().readonly().auto())
        .field(
            FieldDef::new(s("phoneNo"), FieldKind::Str)
                .required()
                .unique()
                .on_set(Pipeline::new().regex_match(s(r"^1\d{10}$"))),
        )
        .field(
            FieldDef::new(s("name"), FieldKind::Str).required().default_pipeline(
                Pipeline::new()
                    .object_value(s("phoneNo"))
                    .regex_replace(s(r"(.).{3}$"), s("****"))
                    .str_prepend(s("user")),
            ),
        )
        .primary(vec![s("id")]);
    let mut store = Store::new();
    let mut o = Object::new(&m);
    o.set(&m, &s("phoneNo"), Value::Str(s("13800001234")), &mut store.clock).unwrap();
    o.save(&m, &mut store).unwrap();
    assert_eq!(get_str(&o, &m, "name"), "user1380000****");
    // the same input always masks to the same display name
    let mut p = Object::new(&m);
    p.set(&m, &s("phoneNo"), Value::Str(s("13800001234")), &mut store.clock).unwrap();
    let mut other = Store::new();
    p.save(&m, &mut other).unwrap();
    assert_eq!(get_str(&p, &m, "name"), "user1380000****");
    // a caller-supplied name suppresses the default
    let mut q = Object::new(&m);
    q.set(&m, &s("phoneNo"), Value::Str(s("13900001234")), &mut store.clock).unwrap();
    q.set(&m, &s("name"), Value::Str(s("someone")), &mut store.clock).unwrap();
    q.save(&m, &mut store).unwrap();
    assert_eq!(get_str(&q, &m, "name"), "someone");
}

#[test]
fn missing_sibling_field_fails_the_default() {
    let m = ModelDef::new(s("A"), s("a"))
        .field(FieldDef::new(s("id"), FieldKind::Id).required().readonly().auto())
        .field(
            FieldDef::new(s("name"), FieldKind::Str).required().default_pipeline(
                Pipeline::new().object_value(s("nope")),
            ),
        )
        .primary(vec![s("id")]);
    let mut store = Store::new();
    let mut o = Object::new(&m);
    let r = o.save(&m, &mut store);
    assert_eq!(r, Err(SaveError::Validation(PipeErr::MissingField)));
    assert_eq!(store.recs.len(), 0);
}

#[test]
fn integer_overflow_is_refused() {
    let m = ModelDef::new(s("A"), s("a"))
        .field(FieldDef::new(s("id"), FieldKind::Id).required().readonly().auto())
        .field(
            FieldDef::new(s("n"), FieldKind::Int).required().on_set(Pipeline::new().add_int(1)),
        )
        .primary(vec![s("id")]);
    let mut store = Store::new();
    let mut o = Object::new(&m);
    let r = o.set(&m, &s("n"), Value::Int(i64::MAX), &mut store.clock);
    assert_eq!(r, Err(FieldError::Validation(PipeErr::Overflow)));
    let r = o.set(&m, &s("n"), Value::Int(41), &mut store.clock);
    assert_eq!(r, Ok(()));
    assert!(value_eq(&o.get(&m, &s("n")).unwrap(), &Value::Int(42)));
}

#[test]
fn invalid_pattern_is_refused() {
    let m = ModelDef::new(s("A"), s("a"))
        .field(FieldDef::new(s("id"), FieldKind::Id).required().readonly().auto())
        .field(
            FieldDef::new(s("t"), FieldKind::Str).required().on_set(
                Pipeline::new().regex_match(s("(")),
            ),
        )
        .primary(vec![s("id")]);
    let mut store = Store::new();
    let mut o = Object::new(&m);
    let r = o.set(&m, &s("t"), Value::Str(s("x")), &mut store.clock);
    assert_eq!(r, Err(FieldError::Validation(PipeErr::BadPattern)));
}

#[test]
fn length_bounds_are_enforced() {
    let m = ModelDef::new(s("A"), s("a"))
        .field(FieldDef::new(s("id"), FieldKind::Id).required().readonly().auto())
        .field(
            FieldDef::new(s("t"), FieldKind::Str).required().on_set(
                Pipeline::new().length_between(2, 4),
            ),
        )
        .primary(vec![s("id")]);
    let mut store = Store::new();
    let mut o = Object::new(&m);
    assert_eq!(
        o.set(&m, &s("t"), Value::Str(s("x")), &mut store.clock),
        Err(FieldError::Validation(PipeErr::LengthOutOfBounds))
    );
    assert_eq!(
        o.set(&m, &s("t"), Value::Str(s("xxxxx")), &mut store.clock),
        Err(FieldError::Validation(PipeErr::LengthOutOfBounds))
    );
    assert_eq!(o.set(&m, &s("t"), Value::Str(s("xyz")), &mut store.clock), Ok(()));
}

#[test]
fn list_defaults_conform_and_compare_deeply() {
    let m = ModelDef::new(s("Unit"), s("units"))
        .field(FieldDef::new(s("id"), FieldKind::Id).required().readonly().auto())
        .field(
            FieldDef::new(s("vec"), FieldKind::List(Box::new(FieldKind::Str)))
                .required()
                .default_value(Value::List(vec![
                    Value::Str(s("a")),
                    Value::Str(s("b")),
                    Value::Str(s("qq")),
                ])),
        )
        .primary(vec![s("id")]);
    let mut store = Store::new();
    let mut o = Object::new(&m);
    o.save(&m, &mut store).unwrap();
    let v = o.get(&m, &s("vec")).unwrap();
    let expected = Value::List(vec![Value::Str(s("a")), Value::Str(s("b")), Value::Str(s("qq"))]);
    assert!(value_eq(&v, &expected));
    let shorter = Value::List(vec![Value::Str(s("a")), Value::Str(s("b"))]);
    assert!(!value_eq(&v, &shorter));
    let differs = Value::List(vec![Value::Str(s("a")), Value::Str(s("b")), Value::Str(s("q"))]);
    assert!(!value_eq(&v, &differs));
    // a list whose element breaks the declared type is refused
    let r = o.set(&m, &s("vec"), Value::List(vec![Value::Int(1)]), &mut store.clock);
    assert_eq!(r, Err(FieldError::Mismatch));
}

#[test]
fn internal_and_writeonly_fields_are_not_handed_out() {
    let m = ModelDef::new(s("A"), s("a"))
        .field(FieldDef::new(s("id"), FieldKind::Id).required().readonly().auto())
        .field(FieldDef::new(s("secret"), FieldKind::Str).required().writeonly())
        .field(FieldDef::new(s("code"), FieldKind::Str).optional().internal())
        .primary(vec![s("id")]);
    let store = Store::new();
    let _ = store;
    let o = Object::new(&m);
    assert_eq!(o.get(&m, &s("secret")).err(), Some(FieldError::NotReadable));
    assert_eq!(o.get(&m, &s("code")).err(), Some(FieldError::NotReadable));
}
