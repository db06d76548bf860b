use webgal_lsp::json::highlight::{highlight, TokenType};
use webgal_lsp::json::locate::{Ident, Location, Node};
use webgal_lsp::json::parse::{parse, parse_for_each, Token};
use webgal_lsp::json::schema::{Schema, SchemaField};
use webgal_lsp::json::value::{Completion, Field, FieldView, IdentKind, Value};

#[test]
fn parse_keeps_the_path_to_the_end() {
    assert_eq!(
        parse(r#"{"a": [1, {"b": "x"#),
        Some(vec![
            Token::ObjectStart,
            Token::Key("a"),
            Token::ArrayStart,
            Token::ObjectStart,
            Token::Key("b"),
            Token::Value("\"x"),
        ])
    );
    assert_eq!(parse(""), Some(vec![]));
    assert_eq!(Token::parse("{\"a\":1}"), Some(vec![]));
}

#[test]
fn parse_rejects_broken_structure() {
    assert_eq!(parse("}"), None);
    assert_eq!(parse("1 {"), None);
    assert_eq!(parse("{a:"), None);
    assert_eq!(parse("{\"a\"]"), None);
}

#[test]
fn parse_for_each_reports_every_value_with_byte_ranges() {
    let values = parse_for_each(r#"{"名": true, "b": [1]}"#);
    assert_eq!(
        values,
        vec![("\"名\"", 1..6), ("true", 8..12), ("\"b\"", 14..17), ("1", 20..21)]
    );
}

#[test]
fn locate_finds_path_and_ident() {
    let loc = Location::locate(r#"{"a": {"b"#);
    assert_eq!(loc.path, vec![Node::Field("a")]);
    assert_eq!(loc.ident, Ident::Key("b"));

    let loc = Location::locate(r#"{"a": "#);
    assert_eq!(loc.path, vec![Node::Field("a")]);
    assert_eq!(loc.ident, Ident::Value(""));

    let loc = Location::locate(r#"{"a": [tr"#);
    assert_eq!(loc.path, vec![Node::Field("a"), Node::Array]);
    assert_eq!(loc.ident, Ident::Value("tr"));

    let loc = Location::locate(r#"{"a": 1, "#);
    assert_eq!(loc.path, vec![]);
    assert_eq!(loc.ident, Ident::Key(""));

    let loc = Location::locate("}");
    assert_eq!(loc, Location::default());
}

fn schema() -> Value {
    Value::Object(vec![
        Field { key: "name".to_string(), value: Value::String, description: "用户名".to_string() },
        Field { key: "nick".to_string(), value: Value::Bool, description: String::new() },
        Field {
            key: "tags".to_string(),
            value: Value::Array(Box::new(Value::Bool)),
            description: "标签".to_string(),
        },
        Field { key: "age".to_string(), value: Value::Number, description: String::new() },
    ])
}

#[test]
fn complete_keys_by_prefix() {
    let completions = schema().complete(r#"{"n"#);
    assert_eq!(
        completions,
        vec![
            Completion {
                name: "name".to_string(),
                kind: IdentKind::Key,
                len: 1,
                text: vec!["name\": \"".to_string(), "\"".to_string()],
                description: "用户名".to_string(),
            },
            Completion {
                name: "nick".to_string(),
                kind: IdentKind::Key,
                len: 1,
                text: vec!["nick\": ".to_string()],
                description: String::new(),
            },
        ]
    );
}

#[test]
fn complete_booleans_in_arrays() {
    let completions = schema().complete(r#"{"tags": [t"#);
    assert_eq!(
        completions,
        vec![Completion {
            name: "true".to_string(),
            kind: IdentKind::Bool,
            len: 1,
            text: vec!["true".to_string()],
            description: "标签".to_string(),
        }]
    );
    assert!(schema().complete(r#"{"age": "#).is_empty());
    assert!(schema().complete(r#"{"missing": "#).is_empty());
}

#[test]
fn get_at_path_and_views() {
    let value = schema();
    let field = value.get_at_path(&[Node::Field("tags"), Node::Array]).unwrap();
    assert_eq!(field.key, "tags");
    assert_eq!(field.value, &Value::Bool);
    assert_eq!(field.description, "标签");
    assert!(value.get_at_path(&[Node::Array]).is_none());
    let root = FieldView::with_value(&value);
    assert_eq!(root.key, "");
    assert_eq!(value.get_at_path(&[]), Some(root));
}

#[test]
fn inherit_appends_base_fields() {
    let child = Value::Object(vec![Field {
        key: "x".to_string(),
        value: Value::Number,
        description: String::new(),
    }]);
    let merged = child.inherit(&schema());
    match merged {
        Value::Object(fields) => {
            assert_eq!(fields.len(), 5);
            assert_eq!(fields[0].key, "x");
            assert_eq!(fields[1].key, "name");
            assert_eq!(fields[4].key, "age");
        }
        _ => panic!("an object stays an object"),
    }
    assert_eq!(Value::String.inherit(&schema()), Value::String);
}

#[test]
fn schema_completes_every_key() {
    let schema = Schema::Object(vec![
        SchemaField { key: "alpha".to_string(), value: Schema::Number, description: "a".to_string() },
        SchemaField { key: "beta".to_string(), value: Schema::Bool, description: String::new() },
    ]);
    let completions = schema.complete(r#"{"zz"#);
    assert_eq!(completions.len(), 2);
    assert_eq!(completions[0].name, "alpha");
    assert_eq!(completions[0].len, 2);
    assert_eq!(completions[1].name, "beta");
    let bools = schema.complete(r#"{"beta": "#);
    assert_eq!(bools.len(), 2);
    assert_eq!(bools[0].name, "true");
    assert_eq!(bools[1].name, "false");
    assert_eq!(bools[1].len, 0);
    // Once a value is being typed after a key, the key is no longer on the path.
    assert!(schema.complete(r#"{"beta": f"#).is_empty());
}

#[test]
fn highlight_classifies_spans() {
    let spans = highlight(r#"{"a": true, "b": 12}"#);
    assert_eq!(
        spans,
        vec![
            (0..1, TokenType::Operator),
            (1..4, TokenType::String),
            (4..6, TokenType::Operator),
            (6..10, TokenType::Keyword),
            (10..12, TokenType::Operator),
            (12..15, TokenType::String),
            (15..17, TokenType::Operator),
            (17..19, TokenType::Number),
            (19..20, TokenType::Operator),
        ]
    );
    assert_eq!(highlight(""), vec![]);
}
