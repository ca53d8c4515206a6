use lispkit::ast::LispExpr;

fn num(s: &str) -> LispExpr {
    LispExpr::Number(s.to_string())
}

#[test]
fn test_new_macro_variants() {
    let macro_def = LispExpr::Macro {
        name: "when".to_string(),
        parameters: vec!["condition".to_string(), "body".to_string()],
        body: Box::new(LispExpr::Symbol("test".to_string())),
    };

    assert!(macro_def.is_macro());
    assert!(!macro_def.is_atom());

    let (name, params, _body) = macro_def.as_macro().unwrap();
    assert_eq!(name, "when");
    assert_eq!(params.len(), 2);
    assert_eq!(params[0], "condition");
}

#[test]
fn test_quote_variants() {
    let quote_expr = LispExpr::Quote(Box::new(LispExpr::Symbol("x".to_string())));
    let quasiquote_expr = LispExpr::Quasiquote(Box::new(LispExpr::Symbol("y".to_string())));
    let unquote_expr = LispExpr::Unquote(Box::new(LispExpr::Symbol("z".to_string())));
    let splice_expr = LispExpr::Splice(Box::new(LispExpr::List(vec![])));

    assert!(quote_expr.is_quote_family());
    assert!(quasiquote_expr.is_quote_family());
    assert!(unquote_expr.is_quote_family());
    assert!(splice_expr.is_quote_family());

    assert!(!quote_expr.is_atom());
    assert!(!quasiquote_expr.is_atom());
}

#[test]
fn test_gensym_variant() {
    let gensym = LispExpr::Gensym("unique_123".to_string());

    assert!(gensym.is_atom());
    assert_eq!(gensym.as_gensym().unwrap(), "unique_123");
}

#[test]
fn test_macro_call_variant() {
    let macro_call = LispExpr::MacroCall {
        name: "when".to_string(),
        args: vec![LispExpr::Bool(true), num("42.0")],
    };

    assert!(macro_call.is_macro_call());
    assert!(!macro_call.is_atom());

    let (name, args) = macro_call.as_macro_call().unwrap();
    assert_eq!(name, "when");
    assert_eq!(args.len(), 2);
}

#[test]
fn test_accessors_on_other_variants() {
    let l = LispExpr::List(vec![num("1")]);
    assert!(l.is_list());
    assert_eq!(l.as_list().unwrap().len(), 1);
    assert!(l.as_symbol().is_none());
    assert!(l.as_quote().is_none());
    assert!(l.as_quasiquote().is_none());
    assert!(l.as_unquote().is_none());
    assert!(l.as_splice().is_none());
    assert!(l.as_gensym().is_none());
    let q = LispExpr::Quote(Box::new(num("1")));
    assert_eq!(q.as_quote().unwrap(), &num("1"));
    let qq = LispExpr::Quasiquote(Box::new(num("1")));
    assert_eq!(qq.as_quasiquote().unwrap(), &num("1"));
    let u = LispExpr::Unquote(Box::new(num("1")));
    assert_eq!(u.as_unquote().unwrap(), &num("1"));
    let sp = LispExpr::Splice(Box::new(num("1")));
    assert_eq!(sp.as_splice().unwrap(), &num("1"));
    assert_eq!(LispExpr::Symbol("s".to_string()).as_symbol().unwrap(), "s");
}
