use lispkit::ast::LispExpr;
use lispkit::ir::{deserialize_expr, serialize_expr};
use lispkit::macro_expander::{MacroError, MacroExpander};
use lispkit::transform::{EchoTransform, TransformRegistry};

fn num(s: &str) -> LispExpr {
    LispExpr::Number(s.to_string())
}

fn sym(s: &str) -> LispExpr {
    LispExpr::Symbol(s.to_string())
}

#[test]
fn test_undefined_macro_error_on_explicit_call() {
    // The explicit MacroCall form, unlike a plain List, demands a definition.
    let mut expander = MacroExpander::new();
    let call = LispExpr::MacroCall {
        name: "ghost".to_string(),
        args: vec![num("1")],
    };
    match expander.expand_all(call) {
        Err(MacroError::UndefinedMacro(name)) => assert_eq!(name, "ghost"),
        other => panic!("Expected UndefinedMacro, got {:?}", other),
    }
    let e = MacroError::UndefinedMacro("ghost".to_string());
    assert!(e.message().contains("Undefined macro: 'ghost'"));
}

#[test]
fn test_malformed_definition_message() {
    let e = MacroError::MalformedDefinition {
        macro_name: "m".to_string(),
        reason: "something is off".to_string(),
    };
    let msg = e.message();
    assert!(msg.contains("Malformed macro definition for 'm'"));
    assert!(msg.contains("something is off"));
    assert!(msg.contains("Help"));
}

#[test]
fn test_hygiene_keeps_caller_symbols_and_renames_body_symbols() {
    let mut expander = MacroExpander::new();
    // The body refers to a free symbol `s`; the caller passes its own `s`.
    expander.define_macro(
        "keep".to_string(),
        vec!["v".to_string()],
        LispExpr::Quasiquote(Box::new(LispExpr::List(vec![
            sym("s"),
            LispExpr::Unquote(Box::new(sym("v"))),
        ]))),
    );
    let call = LispExpr::List(vec![sym("keep"), sym("s")]);
    let result = expander.expand_all(call).unwrap();
    match result {
        LispExpr::List(es) => {
            assert_eq!(es.len(), 2);
            // The body's occurrence became a Gensym; the caller's survived.
            assert!(matches!(es[0], LispExpr::Gensym(_)));
            assert_eq!(es[1], sym("s"));
        }
        _ => panic!("Expected List"),
    }
}

#[test]
fn test_depth_error_at_exactly_the_configured_depth() {
    for bound in [1usize, 3, 7] {
        let mut expander = MacroExpander::with_max_depth(bound);
        expander.define_macro(
            "again".to_string(),
            vec!["x".to_string()],
            LispExpr::Quasiquote(Box::new(LispExpr::List(vec![
                sym("again"),
                LispExpr::Unquote(Box::new(sym("x"))),
            ]))),
        );
        let call = LispExpr::List(vec![sym("again"), num("1")]);
        match expander.expand_all(call) {
            Err(MacroError::MaxDepthExceeded { depth, macro_name }) => {
                assert_eq!(depth, bound);
                assert_eq!(macro_name, "again");
            }
            other => panic!("Expected MaxDepthExceeded, got {:?}", other),
        }
    }
}

#[test]
fn test_redefinition_replaces_earlier_macro() {
    let mut expander = MacroExpander::new();
    expander.define_macro("m".to_string(), vec![], num("1"));
    expander.define_macro("m".to_string(), vec![], num("2"));
    let r = expander.expand_all(LispExpr::List(vec![sym("m")])).unwrap();
    assert_eq!(r, num("2"));
}

#[test]
fn test_empty_list_compiles_to_empty_vec() {
    let code = lispkit::compiler::compile_to_rust(&vec![LispExpr::List(vec![])]).unwrap();
    assert!(code.contains("vec![]"));
}

#[test]
fn test_round_trip_exercises_every_variant() {
    let everything = LispExpr::List(vec![
        num("0"),
        num("-3.25"),
        sym("plus"),
        LispExpr::String(String::new()),
        LispExpr::Bool(true),
        LispExpr::Bool(false),
        LispExpr::Nil,
        LispExpr::Gensym("g#g1".to_string()),
        LispExpr::Quote(Box::new(sym("q"))),
        LispExpr::Quasiquote(Box::new(LispExpr::Unquote(Box::new(sym("u"))))),
        LispExpr::Splice(Box::new(sym("xs"))),
        LispExpr::Macro {
            name: "m".to_string(),
            parameters: vec![],
            body: Box::new(LispExpr::Nil),
        },
        LispExpr::MacroCall {
            name: "c".to_string(),
            args: vec![],
        },
    ]);
    let json = serialize_expr(&everything);
    assert_eq!(deserialize_expr(&json).unwrap(), everything);
}

#[test]
fn test_echo_render_through_registry_leaves_tree_alone() {
    let mut registry: TransformRegistry<EchoTransform> = TransformRegistry::new();
    registry.register(EchoTransform::new());
    let original = LispExpr::Quasiquote(Box::new(LispExpr::List(vec![
        sym("a"),
        LispExpr::Unquote(Box::new(sym("b"))),
    ])));
    let mut ast = original.clone();
    registry.apply_all(&mut ast).unwrap();
    assert_eq!(ast, original);
}

#[test]
fn test_expansion_idempotent_with_nil_in_list() {
    let mut expander = MacroExpander::new();
    let t = LispExpr::List(vec![num("1"), LispExpr::Nil, LispExpr::Nil]);
    let once = expander.expand_all(t.clone()).unwrap();
    assert_eq!(once, t);
    assert_eq!(expander.expand_all(once.clone()).unwrap(), once);
}

#[test]
fn test_describe_renders_terms() {
    let t = LispExpr::List(vec![sym("+"), num("1")]);
    let text = t.describe();
    assert_eq!(text, "List([Symbol(+), Number(1)])");
}
