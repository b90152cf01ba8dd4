use doodle::Field;
use doodle::JsonValue;
use doodle::Schema;
use doodle::SchemaMeta;
use doodle::SchemaRegistry;
use doodle::Type;
use doodle::build_object_schema;
use doodle::parse;

fn obj(pairs: Vec<(&str, JsonValue)>) -> JsonValue {
    JsonValue::Object(pairs.into_iter().map(|(k, v)| (k.to_string(), v)).collect())
}

fn text(s: &str) -> JsonValue {
    JsonValue::Text(s.to_string())
}

fn field(name: &str, ty: Type) -> Field {
    Field { name: name.to_string(), json_ty: ty }
}

fn simple(kind: &str) -> Type {
    Type::Simple(kind.to_string())
}

#[test]
fn builds_object_schema_of_two_fields() {
    let fields = vec![field("id", simple("number")), field("name", simple("string"))];
    let schema = build_object_schema(&fields);
    assert_eq!(
        schema,
        obj(vec![
            ("type", text("object")),
            (
                "properties",
                obj(vec![
                    ("id", obj(vec![("type", text("number"))])),
                    ("name", obj(vec![("type", text("string"))])),
                ])
            ),
        ])
    );
}

#[test]
fn builds_empty_object_schema() {
    let schema = build_object_schema(&Vec::new());
    assert_eq!(schema, obj(vec![("type", text("object")), ("properties", obj(vec![]))]));
}

#[test]
fn later_field_overwrites_earlier_of_same_name_in_place() {
    let fields = vec![
        field("id", simple("number")),
        field("other", simple("string")),
        field("id", simple("string")),
    ];
    let schema = build_object_schema(&fields);
    assert_eq!(
        schema,
        obj(vec![
            ("type", text("object")),
            (
                "properties",
                obj(vec![
                    ("id", obj(vec![("type", text("string"))])),
                    ("other", obj(vec![("type", text("string"))])),
                ])
            ),
        ])
    );
}

#[test]
fn export_of_empty_registry_is_empty_object() {
    let registry = SchemaRegistry::new();
    assert_eq!(registry.len(), 0);
    assert_eq!(registry.export(), obj(vec![]));
}

#[test]
fn registering_twice_with_same_fields_is_idempotent() {
    let fields = vec![field("id", simple("number"))];
    let mut once = SchemaRegistry::new();
    once.register("Woods", &fields);
    let mut twice = SchemaRegistry::new();
    twice.register("Woods", &fields);
    twice.register("Woods", &fields);
    assert_eq!(once.export(), twice.export());
    assert_eq!(twice.len(), 1);
}

#[test]
fn registering_again_overwrites_the_document() {
    let first = vec![field("id", simple("number"))];
    let second = vec![field("id", simple("string")), field("tag", simple("number"))];
    let mut registry = SchemaRegistry::new();
    registry.register("Woods", &first);
    registry.register("Woods", &second);
    assert_eq!(registry.len(), 1);
    let exported = registry.export();
    assert_eq!(exported.get("Woods"), Some(&build_object_schema(&second)));
}

#[test]
fn export_keeps_registration_order_and_keys() {
    let mut registry = SchemaRegistry::new();
    registry.register("Woods", &vec![field("id", simple("number"))]);
    registry.register("Tale", &vec![field("value", parse("Option<String>").unwrap())]);
    let exported = registry.export();
    assert_eq!(
        exported,
        obj(vec![
            (
                "Woods",
                obj(vec![
                    ("type", text("object")),
                    ("properties", obj(vec![("id", obj(vec![("type", text("number"))]))])),
                ])
            ),
            (
                "Tale",
                obj(vec![
                    ("type", text("object")),
                    (
                        "properties",
                        obj(vec![(
                            "value",
                            obj(vec![("type", text("string")), ("nullable", JsonValue::Bool(true))]),
                        )])
                    ),
                ])
            ),
        ])
    );
}

#[test]
fn lookup_of_unknown_name_is_none() {
    let mut registry = SchemaRegistry::new();
    registry.register("Woods", &vec![field("id", simple("number"))]);
    let exported = registry.export();
    assert_eq!(exported.get("Tale"), None);
}

struct Woods;

impl SchemaMeta for Woods {
    fn get_fields() -> Vec<Field> {
        vec![
            field("id", parse("i32").unwrap()),
            field("epic", parse("Vec<Vec<Tale>>").unwrap()),
        ]
    }

    fn get_name() -> String {
        "Woods".to_string()
    }
}

impl Schema for Woods {}

struct Tale;

impl SchemaMeta for Tale {
    fn get_fields() -> Vec<Field> {
        vec![field("value", parse("Option<String>").unwrap())]
    }

    fn get_name() -> String {
        "Tale".to_string()
    }
}

impl Schema for Tale {}

#[test]
fn schema_trait_renders_fields_of_a_structure() {
    let rendered = Woods::get_fields_openapi();
    assert_eq!(
        rendered,
        obj(vec![
            ("type", text("object")),
            (
                "properties",
                obj(vec![
                    ("id", obj(vec![("type", text("number"))])),
                    (
                        "epic",
                        obj(vec![
                            ("type", text("array")),
                            (
                                "items",
                                obj(vec![
                                    ("type", text("array")),
                                    (
                                        "items",
                                        obj(vec![(
                                            "$ref",
                                            text("#/components/schemas/Tale"),
                                        )])
                                    ),
                                ])
                            ),
                        ])
                    ),
                ])
            ),
        ])
    );
}

#[test]
fn schema_trait_appends_structures_to_a_registry() {
    let mut registry = SchemaRegistry::new();
    Woods::append_to_schema(&mut registry);
    Tale::append_to_schema(&mut registry);
    assert_eq!(registry.len(), 2);
    let exported = registry.export();
    assert_eq!(exported.get("Woods"), Some(&Woods::get_fields_openapi()));
    assert_eq!(exported.get("Tale"), Some(&Tale::get_fields_openapi()));
}

#[test]
fn export_is_a_snapshot_unaffected_by_later_registrations() {
    let mut registry = SchemaRegistry::new();
    registry.register("Woods", &vec![field("id", simple("number"))]);
    let before = registry.export();
    registry.register("Woods", &vec![field("id", simple("string"))]);
    registry.register("Tale", &vec![field("value", simple("string"))]);
    assert_eq!(
        before,
        obj(vec![(
            "Woods",
            obj(vec![
                ("type", text("object")),
                ("properties", obj(vec![("id", obj(vec![("type", text("number"))]))])),
            ])
        )])
    );
}
