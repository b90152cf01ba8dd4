use doodle::JsonValue;
use doodle::SchemaError;
use doodle::Type;
use doodle::into_json_type;
use doodle::parse;
use doodle::split_generics;

fn obj(pairs: Vec<(&str, JsonValue)>) -> JsonValue {
    JsonValue::Object(pairs.into_iter().map(|(k, v)| (k.to_string(), v)).collect())
}

fn text(s: &str) -> JsonValue {
    JsonValue::Text(s.to_string())
}

fn simple(kind: &str) -> Type {
    Type::Simple(kind.to_string())
}

fn reference(name: &str) -> Type {
    Type::Reference(name.to_string())
}

fn array(inner: Type) -> Type {
    Type::Array(Box::new(inner))
}

fn nullable(inner: Type) -> Type {
    Type::Nullable(Box::new(inner))
}

fn depth(t: &Type) -> usize {
    match t {
        Type::Array(inner) => 1 + depth(inner),
        Type::Nullable(inner) => 1 + depth(inner),
        _ => 0,
    }
}

#[test]
fn test_vector_serialization() {
    let input = "Vec<Vec<i32>>";
    let result = parse(input).unwrap();
    assert_eq!(result, array(array(simple("number"))));
}

#[test]
fn classifies_numeric_names() {
    for name in [
        "usize", "isize", "i32", "u32", "i8", "u8", "i16", "u16", "i64", "u64", "f32", "f64",
    ] {
        assert_eq!(into_json_type(name), Some("number".to_string()));
    }
}

#[test]
fn classifies_text_names() {
    assert_eq!(into_json_type("String"), Some("string".to_string()));
    assert_eq!(into_json_type("str"), Some("string".to_string()));
}

#[test]
fn classifies_other_names_as_not_primitive() {
    assert_eq!(into_json_type("bool"), None);
    assert_eq!(into_json_type("CustomType"), None);
    assert_eq!(into_json_type(""), None);
}

#[test]
fn splits_at_depth_zero_brackets() {
    let parts = split_generics("Vec<Option<String>>");
    assert_eq!(
        parts,
        vec!["Vec".to_string(), "Option<String>".to_string(), String::new()]
    );
}

#[test]
fn split_of_unbalanced_signature_has_even_length() {
    let parts = split_generics("Vec<Option<String>");
    assert_eq!(parts, vec!["Vec".to_string(), "Option<String>".to_string()]);
}

#[test]
fn split_of_bare_identifier_is_the_identifier() {
    assert_eq!(split_generics("i32"), vec!["i32".to_string()]);
}

#[test]
fn parses_primitive_number() {
    assert_eq!(parse("i32").unwrap(), simple("number"));
    assert_eq!(parse("i32").unwrap().to_json(), obj(vec![("type", text("number"))]));
}

#[test]
fn parses_primitive_string() {
    assert_eq!(parse("String").unwrap(), simple("string"));
}

#[test]
fn parses_opaque_reference() {
    assert_eq!(parse("CustomType").unwrap(), reference("CustomType"));
    assert_eq!(
        parse("CustomType").unwrap().to_json(),
        obj(vec![("$ref", text("#/components/schemas/CustomType"))])
    );
}

#[test]
fn parses_nested_optional() {
    let parsed = parse("Vec<Option<String>>").unwrap();
    assert_eq!(parsed, array(nullable(simple("string"))));
    assert_eq!(
        parsed.to_json(),
        obj(vec![
            ("type", text("array")),
            ("items", obj(vec![("type", text("string")), ("nullable", JsonValue::Bool(true))])),
        ])
    );
}

#[test]
fn parses_doubly_nested_vector() {
    assert_eq!(parse("Vec<Vec<i32>>").unwrap(), array(array(simple("number"))));
}

#[test]
fn unbalanced_signature_is_malformed() {
    assert_eq!(parse("Vec<Option<String>"), Err(SchemaError::MalformedSignature));
}

#[test]
fn unclosed_bare_bracket_is_malformed() {
    assert_eq!(parse("Vec<"), Err(SchemaError::MalformedSignature));
    assert_eq!(parse("Option<i32"), Err(SchemaError::MalformedSignature));
}

#[test]
fn unrecognized_wrapper_stays_one_reference() {
    assert_eq!(
        parse("HashMap<String, i32>").unwrap(),
        reference("HashMap<String, i32>")
    );
}

#[test]
fn whitespace_is_stripped_from_signature_and_tokens() {
    let parsed = parse("  Vec < Option < String > > ").unwrap();
    assert_eq!(parsed, array(nullable(simple("string"))));
}

#[test]
fn empty_signature_is_an_empty_reference() {
    assert_eq!(parse("").unwrap(), reference(""));
}

#[test]
fn parse_depth_matches_wrapper_levels() {
    assert_eq!(depth(&parse("i32").unwrap()), 0);
    assert_eq!(depth(&parse("Vec<i32>").unwrap()), 1);
    assert_eq!(depth(&parse("Vec<Vec<i32>>").unwrap()), 2);
    assert_eq!(depth(&parse("Option<Vec<Option<u8>>>").unwrap()), 3);
    assert_eq!(depth(&parse("HashMap<String, Vec<i32>>").unwrap()), 0);
}

#[test]
fn doubly_nullable_keeps_one_nullable_key() {
    let parsed = parse("Option<Option<i32>>").unwrap();
    assert_eq!(parsed, nullable(nullable(simple("number"))));
    assert_eq!(
        parsed.to_json(),
        obj(vec![("type", text("number")), ("nullable", JsonValue::Bool(true))])
    );
}

#[test]
fn text_after_the_matching_bracket_is_ignored() {
    assert_eq!(parse("Vec<i32>x").unwrap(), array(simple("number")));
    assert_eq!(split_generics("Vec<i32>x"), vec![
        "Vec".to_string(),
        "i32".to_string(),
        "x".to_string()
    ]);
}

#[test]
fn wrapper_name_must_match_exactly() {
    assert_eq!(parse("Vecc<i32>").unwrap(), reference("Vecc<i32>"));
    assert_eq!(parse("OptionBox<i32>").unwrap(), reference("OptionBox<i32>"));
}

#[test]
fn bare_wrapper_names_are_references() {
    assert_eq!(parse("Vec").unwrap(), reference("Vec"));
    assert_eq!(parse("Option").unwrap(), reference("Option"));
}
