use lispkit::ast::LispExpr;
use lispkit::ir::{deserialize_expr, serialize_expr, serialize_program};

fn num(s: &str) -> LispExpr {
    LispExpr::Number(s.to_string())
}

#[test]
fn test_json_serialize_basic_types() {
    // Number
    let number = num("42.5");
    let json = serialize_expr(&number);
    assert!(json.contains("Number"));
    assert!(json.contains("42.5"));

    // Symbol
    let symbol = LispExpr::Symbol("foo".to_string());
    let json = serialize_expr(&symbol);
    assert!(json.contains("Symbol"));
    assert!(json.contains("foo"));

    // String
    let string = LispExpr::String("hello".to_string());
    let json = serialize_expr(&string);
    assert!(json.contains("String"));
    assert!(json.contains("hello"));

    // Bool
    let bool_val = LispExpr::Bool(true);
    let json = serialize_expr(&bool_val);
    assert!(json.contains("Bool"));
    assert!(json.contains("true"));

    // Nil
    let nil = LispExpr::Nil;
    let json = serialize_expr(&nil);
    assert!(json.contains("Nil"));
}

#[test]
fn test_json_serialize_list() {
    let list = LispExpr::List(vec![num("1.0"), num("2.0"), num("3.0")]);

    let json = serialize_expr(&list);
    assert!(json.contains("List"));
}

#[test]
fn test_json_serialize_macro() {
    let macro_def = LispExpr::Macro {
        name: "when".to_string(),
        parameters: vec!["cond".to_string(), "body".to_string()],
        body: Box::new(LispExpr::Symbol("test".to_string())),
    };

    let json = serialize_expr(&macro_def);
    assert!(json.contains("Macro"));
    assert!(json.contains("when"));
    assert!(json.contains("cond"));
}

#[test]
fn test_json_serialize_quote_family() {
    let quote = LispExpr::Quote(Box::new(LispExpr::Symbol("x".to_string())));
    let json = serialize_expr(&quote);
    assert!(json.contains("Quote"));

    let quasiquote = LispExpr::Quasiquote(Box::new(num("42.0")));
    let json = serialize_expr(&quasiquote);
    assert!(json.contains("Quasiquote"));

    let unquote = LispExpr::Unquote(Box::new(LispExpr::Symbol("y".to_string())));
    let json = serialize_expr(&unquote);
    assert!(json.contains("Unquote"));

    let splice = LispExpr::Splice(Box::new(LispExpr::List(vec![])));
    let json = serialize_expr(&splice);
    assert!(json.contains("Splice"));
}

#[test]
fn test_json_serialize_gensym() {
    let gensym = LispExpr::Gensym("unique_123".to_string());
    let json = serialize_expr(&gensym);
    assert!(json.contains("Gensym"));
    assert!(json.contains("unique_123"));
}

#[test]
fn test_json_round_trip_basic_types() {
    // Number
    let original = num("42.5");
    let json = serialize_expr(&original);
    let deserialized: LispExpr = deserialize_expr(&json).unwrap();
    assert_eq!(original, deserialized);

    // Symbol
    let original = LispExpr::Symbol("test".to_string());
    let json = serialize_expr(&original);
    let deserialized: LispExpr = deserialize_expr(&json).unwrap();
    assert_eq!(original, deserialized);

    // Bool
    let original = LispExpr::Bool(false);
    let json = serialize_expr(&original);
    let deserialized: LispExpr = deserialize_expr(&json).unwrap();
    assert_eq!(original, deserialized);

    // Nil
    let original = LispExpr::Nil;
    let json = serialize_expr(&original);
    let deserialized: LispExpr = deserialize_expr(&json).unwrap();
    assert_eq!(original, deserialized);
}

#[test]
fn test_json_round_trip_complex_structures() {
    // Nested list with macro call
    let original = LispExpr::List(vec![LispExpr::MacroCall {
        name: "when".to_string(),
        args: vec![
            LispExpr::Bool(true),
            LispExpr::List(vec![
                LispExpr::Symbol("+".to_string()),
                num("1.0"),
                num("2.0"),
            ]),
        ],
    }]);

    let json = serialize_expr(&original);
    let deserialized: LispExpr = deserialize_expr(&json).unwrap();
    assert_eq!(original, deserialized);

    // Macro with quote
    let original = LispExpr::Macro {
        name: "test_macro".to_string(),
        parameters: vec!["x".to_string()],
        body: Box::new(LispExpr::Quote(Box::new(LispExpr::Symbol("x".to_string())))),
    };

    let json = serialize_expr(&original);
    let deserialized: LispExpr = deserialize_expr(&json).unwrap();
    assert_eq!(original, deserialized);
}

#[test]
fn test_json_deserialize_from_custom_format() {
    let json_str = r#"{"Number":42.0}"#;
    let expr: LispExpr = deserialize_expr(json_str).unwrap();
    assert_eq!(expr, num("42.0"));

    let json_str = r#"{"Symbol":"test"}"#;
    let expr: LispExpr = deserialize_expr(json_str).unwrap();
    assert_eq!(expr, LispExpr::Symbol("test".to_string()));
}

#[test]
fn test_json_round_trip_escaped_strings() {
    let original = LispExpr::String("a \"quoted\"\nline\\with\tescapes".to_string());
    let json = serialize_expr(&original);
    let deserialized = deserialize_expr(&json).unwrap();
    assert_eq!(original, deserialized);
}

#[test]
fn test_json_output_is_valid_json() {
    let original = LispExpr::Macro {
        name: "m".to_string(),
        parameters: vec!["a".to_string(), "b".to_string()],
        body: Box::new(LispExpr::List(vec![
            LispExpr::Symbol("+".to_string()),
            num("1"),
            LispExpr::String("x\"y".to_string()),
        ])),
    };
    let json = serialize_program(&vec![original]);
    let parsed: serde_json::Value = serde_json::from_str(&json).unwrap();
    assert!(parsed.is_array());
}

#[test]
fn test_json_rejects_malformed_text() {
    assert!(deserialize_expr("{\"Number\":}").is_err());
    assert!(deserialize_expr("{\"Number\":01}").is_err());
    assert!(deserialize_expr("nonsense").is_err());
    assert!(deserialize_expr("{\"Symbol\":\"x\"}trailing").is_err());
}
