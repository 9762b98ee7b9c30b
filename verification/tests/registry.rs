use fieldpipe::schema::{EnumDef, FieldDef, Graph, ModelDef, RelationDef, SchemaError};
use fieldpipe::value::FieldKind;

fn s(x: &str) -> String {
    x.to_string()
}

fn id_field() -> FieldDef {
    FieldDef::new(s("id"), FieldKind::Id).required().readonly().auto()
}

fn plain_model(name: &str) -> ModelDef {
    ModelDef::new(s(name), s(name))
        .field(id_field())
        .primary(vec![s("id")])
}

#[test]
fn build_accepts_sound_graph() {
    let author = plain_model("Author")
        .field(FieldDef::new(s("name"), FieldKind::Str).required())
        .relation(RelationDef {
            name: s("articles"),
            collection: true,
            target: s("Article"),
            local_fields: vec![s("id")],
            foreign_fields: vec![s("authorId")],
            through: None,
        });
    let article = plain_model("Article")
        .field(FieldDef::new(s("title"), FieldKind::Str).required())
        .field(FieldDef::new(s("authorId"), FieldKind::Id).required())
        .relation(RelationDef {
            name: s("author"),
            collection: false,
            target: s("Author"),
            local_fields: vec![s("authorId")],
            foreign_fields: vec![s("id")],
            through: None,
        });
    let user = plain_model("User")
        .field(FieldDef::new(s("sex"), FieldKind::Choice(s("Sex"))).optional())
        .identity();
    let sex = EnumDef::new(s("Sex"), vec![s("MALE"), s("FEMALE")]);
    let g = Graph::build(vec![author, article, user], vec![sex]);
    assert!(g.is_ok());
    let g = g.unwrap();
    assert_eq!(g.models.len(), 3);
    assert_eq!(g.enums.len(), 1);
}

#[test]
fn build_rejects_duplicate_model() {
    let g = Graph::build(vec![plain_model("A"), plain_model("A")], Vec::new());
    assert_eq!(g.err().unwrap(), SchemaError::DuplicateModel);
}

#[test]
fn build_rejects_duplicate_field() {
    let m = plain_model("A").field(id_field());
    let g = Graph::build(vec![m], Vec::new());
    assert_eq!(g.err().unwrap(), SchemaError::DuplicateField);
}

#[test]
fn build_rejects_empty_primary_key() {
    let m = ModelDef::new(s("A"), s("A")).field(id_field());
    let g = Graph::build(vec![m], Vec::new());
    assert_eq!(g.err().unwrap(), SchemaError::EmptyPrimaryKey);
}

#[test]
fn build_rejects_unknown_primary_field() {
    let m = ModelDef::new(s("A"), s("A")).field(id_field()).primary(vec![s("nope")]);
    let g = Graph::build(vec![m], Vec::new());
    assert_eq!(g.err().unwrap(), SchemaError::UnknownPrimaryField);
}

#[test]
fn build_rejects_dangling_relation_target() {
    let m = plain_model("A").relation(RelationDef {
        name: s("rel"),
        collection: true,
        target: s("Missing"),
        local_fields: vec![s("id")],
        foreign_fields: vec![s("x")],
        through: None,
    });
    let g = Graph::build(vec![m], Vec::new());
    assert_eq!(g.err().unwrap(), SchemaError::DanglingRelation);
}

#[test]
fn build_rejects_dangling_through_model() {
    let m = plain_model("A").relation(RelationDef {
        name: s("rel"),
        collection: true,
        target: s("A"),
        local_fields: vec![s("id")],
        foreign_fields: vec![s("x")],
        through: Some(s("Missing")),
    });
    let g = Graph::build(vec![m], Vec::new());
    assert_eq!(g.err().unwrap(), SchemaError::DanglingRelation);
}

#[test]
fn build_rejects_unknown_local_relation_field() {
    let m = plain_model("A").relation(RelationDef {
        name: s("rel"),
        collection: true,
        target: s("A"),
        local_fields: vec![s("nope")],
        foreign_fields: vec![s("x")],
        through: None,
    });
    let g = Graph::build(vec![m], Vec::new());
    assert_eq!(g.err().unwrap(), SchemaError::DanglingRelation);
}

#[test]
fn build_rejects_unknown_enum() {
    let m = plain_model("A").field(FieldDef::new(s("sex"), FieldKind::Choice(s("Sex"))).optional());
    let g = Graph::build(vec![m], Vec::new());
    assert_eq!(g.err().unwrap(), SchemaError::UnknownEnum);
}
