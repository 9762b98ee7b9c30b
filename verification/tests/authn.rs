use fieldpipe::auth::{verify_identity, AuthError};
use fieldpipe::object::{FieldError, Object};
use fieldpipe::pipeline::{PipeErr, Pipeline};
use fieldpipe::schema::{FieldDef, ModelDef};
use fieldpipe::store::Store;
use fieldpipe::value::{FieldKind, Value};

fn s(x: &str) -> String {
    x.to_string()
}

fn admin_model() -> ModelDef {
    ModelDef::new(s("Admin"), s("admins"))
        .identity()
        .field(FieldDef::new(s("id"), FieldKind::Id).required().readonly().auto())
        .field(
            FieldDef::new(s("email"), FieldKind::Str)
                .required()
                .unique()
                .auth_identity()
                .on_set(Pipeline::new().regex_match(s(r"^[^@]+@[^@]+$"))),
        )
        .field(
            FieldDef::new(s("password"), FieldKind::Str)
                .required()
                .writeonly()
                .on_set(Pipeline::new().length_between(8, 16).bcrypt_salt())
                .auth_by(
                    Pipeline::new().bcrypt_verify(Pipeline::new().object_value(s("password"))),
                ),
        )
        .field(FieldDef::new(s("name"), FieldKind::Str).required())
        .field(FieldDef::new(s("activated"), FieldKind::Bool).default_value(Value::Bool(true)))
        .primary(vec![s("id")])
}

#[test]
fn verify_accepts_the_right_credential() {
    let m = admin_model();
    let mut store = Store::new();
    let mut a = Object::new(&m);
    a.set(&m, &s("email"), Value::Str(s("not-an-email")), &mut store.clock).unwrap_err();
    a.set(&m, &s("email"), Value::Str(s("admin@example.org")), &mut store.clock).unwrap();
    a.set(&m, &s("password"), Value::Str(s("opensesame")), &mut store.clock).unwrap();
    a.set(&m, &s("name"), Value::Str(s("Admin")), &mut store.clock).unwrap();
    a.save(&m, &mut store).unwrap();
    let r = verify_identity(
        &m,
        &mut store,
        &Value::Str(s("admin@example.org")),
        Value::Str(s("opensesame")),
    );
    assert!(r.is_ok());
    let found = r.unwrap();
    // the matched object carries the persisted identity value
    match found.get(&m, &s("email")).unwrap() {
        Value::Str(e) => assert_eq!(e, "admin@example.org"),
        _ => panic!("expected a string email"),
    }
}

#[test]
fn verify_refuses_wrong_credential_and_unknown_identity_alike() {
    let m = admin_model();
    let mut store = Store::new();
    let mut a = Object::new(&m);
    a.set(&m, &s("email"), Value::Str(s("admin@example.org")), &mut store.clock).unwrap();
    a.set(&m, &s("password"), Value::Str(s("opensesame")), &mut store.clock).unwrap();
    a.set(&m, &s("name"), Value::Str(s("Admin")), &mut store.clock).unwrap();
    a.save(&m, &mut store).unwrap();
    let wrong = verify_identity(
        &m,
        &mut store,
        &Value::Str(s("admin@example.org")),
        Value::Str(s("letmeinnow")),
    );
    let unknown = verify_identity(
        &m,
        &mut store,
        &Value::Str(s("nobody@example.org")),
        Value::Str(s("opensesame")),
    );
    let e1 = wrong.err().unwrap();
    let e2 = unknown.err().unwrap();
    // the two failures are the same opaque value
    assert_eq!(e1, e2);
    assert_eq!(e1, AuthError);
}

#[test]
fn password_rules_run_at_assignment() {
    let m = admin_model();
    let mut store = Store::new();
    let mut a = Object::new(&m);
    let r = a.set(&m, &s("password"), Value::Str(s("short")), &mut store.clock);
    assert_eq!(r, Err(FieldError::Validation(PipeErr::LengthOutOfBounds)));
    let r = a.set(&m, &s("password"), Value::Str(s("opensesame")), &mut store.clock);
    assert_eq!(r, Ok(()));
    // the stored value is a salted hash, never handed out
    assert_eq!(a.get(&m, &s("password")).err(), Some(FieldError::NotReadable));
}
