use lispkit::ast::LispExpr;
use lispkit::macro_expander::{MacroError, MacroExpander};

fn num(s: &str) -> LispExpr {
    LispExpr::Number(s.to_string())
}

fn sym(s: &str) -> LispExpr {
    LispExpr::Symbol(s.to_string())
}

#[test]
fn test_simple_macro_definition() {
    let mut expander = MacroExpander::new();

    let macro_body = LispExpr::Quasiquote(Box::new(LispExpr::List(vec![
        sym("*"),
        LispExpr::Unquote(Box::new(sym("x"))),
        num("2"),
    ])));

    expander.define_macro("double".to_string(), vec!["x".to_string()], macro_body);

    let macro_call = LispExpr::List(vec![sym("double"), num("5")]);

    let result = expander.expand_all(macro_call).unwrap();

    let expected = LispExpr::List(vec![sym("*"), num("5"), num("2")]);

    assert_eq!(result, expected);
}

#[test]
fn test_macro_with_multiple_parameters() {
    let mut expander = MacroExpander::new();

    let macro_body = LispExpr::Quasiquote(Box::new(LispExpr::List(vec![
        sym("*"),
        LispExpr::List(vec![
            sym("+"),
            LispExpr::Unquote(Box::new(sym("a"))),
            LispExpr::Unquote(Box::new(sym("b"))),
        ]),
        LispExpr::Unquote(Box::new(sym("c"))),
    ])));

    expander.define_macro(
        "add-and-multiply".to_string(),
        vec!["a".to_string(), "b".to_string(), "c".to_string()],
        macro_body,
    );

    let macro_call = LispExpr::List(vec![sym("add-and-multiply"), num("1"), num("2"), num("3")]);

    let result = expander.expand_all(macro_call).unwrap();

    let expected = LispExpr::List(vec![
        sym("*"),
        LispExpr::List(vec![sym("+"), num("1"), num("2")]),
        num("3"),
    ]);

    assert_eq!(result, expected);
}

#[test]
fn test_undefined_macro_no_error() {
    let mut expander = MacroExpander::new();

    let function_call = LispExpr::List(vec![sym("undefined_function"), num("1")]);

    let result = expander.expand_all(function_call.clone()).unwrap();

    assert_eq!(result, function_call);
}

#[test]
fn test_parameter_count_mismatch() {
    let mut expander = MacroExpander::new();

    expander.define_macro(
        "test_macro".to_string(),
        vec!["a".to_string(), "b".to_string()],
        sym("body"),
    );

    let macro_call = LispExpr::List(vec![sym("test_macro"), num("1")]);

    let result = expander.expand_all(macro_call);
    assert!(result.is_err());

    if let Err(MacroError::ParameterCountMismatch { macro_name, expected, actual }) = result {
        assert_eq!(macro_name, "test_macro");
        assert_eq!(expected, 2);
        assert_eq!(actual, 1);
    } else {
        panic!("Expected ParameterCountMismatch error");
    }
}

#[test]
fn test_macro_definition_expansion() {
    let mut expander = MacroExpander::new();

    let macro_def = LispExpr::Macro {
        name: "test".to_string(),
        parameters: vec!["x".to_string()],
        body: Box::new(sym("x")),
    };

    let result = expander.expand_all(macro_def).unwrap();
    assert_eq!(result, LispExpr::Nil);

    // The macro is now registered: calling it expands its body.
    let call = LispExpr::List(vec![sym("test"), num("9")]);
    assert_eq!(expander.expand_all(call).unwrap(), num("9"));
}

#[test]
fn test_nested_macro_expansion() {
    let mut expander = MacroExpander::new();

    expander.define_macro(
        "double".to_string(),
        vec!["x".to_string()],
        LispExpr::Quasiquote(Box::new(LispExpr::List(vec![
            sym("*"),
            LispExpr::Unquote(Box::new(sym("x"))),
            num("2"),
        ]))),
    );

    expander.define_macro(
        "quadruple".to_string(),
        vec!["x".to_string()],
        LispExpr::Quasiquote(Box::new(LispExpr::List(vec![
            sym("double"),
            LispExpr::List(vec![sym("double"), LispExpr::Unquote(Box::new(sym("x")))]),
        ]))),
    );

    let macro_call = LispExpr::List(vec![sym("quadruple"), num("5")]);

    let result = expander.expand_all(macro_call).unwrap();

    let expected = LispExpr::List(vec![
        sym("*"),
        LispExpr::List(vec![sym("*"), num("5"), num("2")]),
        num("2"),
    ]);

    assert_eq!(result, expected);
}

#[test]
fn test_max_depth_exceeded() {
    let mut expander = MacroExpander::with_max_depth(2);

    let macro_body = LispExpr::Quasiquote(Box::new(LispExpr::List(vec![
        sym("recursive_macro"),
        LispExpr::Unquote(Box::new(sym("x"))),
    ])));

    expander.define_macro("recursive_macro".to_string(), vec!["x".to_string()], macro_body);

    let macro_call = LispExpr::List(vec![sym("recursive_macro"), num("1")]);

    let result = expander.expand_all(macro_call);
    assert!(result.is_err());

    if let Err(MacroError::MaxDepthExceeded { depth, macro_name }) = result {
        assert_eq!(depth, 2);
        assert_eq!(macro_name, "recursive_macro");
    } else {
        panic!("Expected MaxDepthExceeded error, got: {:?}", result);
    }
}

#[test]
fn test_gensym_generation() {
    let mut expander = MacroExpander::new();

    let sym1 = expander.gensym("temp");
    let sym2 = expander.gensym("temp");
    let sym3 = expander.gensym("var");

    assert_ne!(sym1, sym2);
    assert_ne!(sym2, sym3);
    assert_ne!(sym1, sym3);

    assert!(sym1.starts_with("temp"));
    assert!(sym2.starts_with("temp"));
    assert!(sym3.starts_with("var"));
}

#[test]
fn test_gen_gensym_expr() {
    let mut expander = MacroExpander::new();
    let e = expander.gen_gensym_expr("tmp");
    match e {
        LispExpr::Gensym(name) => assert!(name.starts_with("tmp#g")),
        _ => panic!("Expected Gensym"),
    }
}

fn contains_gensym(expr: &LispExpr) -> bool {
    match expr {
        LispExpr::Gensym(_) => true,
        LispExpr::List(elements) => elements.iter().any(contains_gensym),
        LispExpr::Quote(inner)
        | LispExpr::Quasiquote(inner)
        | LispExpr::Unquote(inner)
        | LispExpr::Splice(inner) => contains_gensym(inner),
        _ => false,
    }
}

#[test]
fn test_hygiene_prevents_variable_capture() {
    let mut expander = MacroExpander::new();

    let macro_body = LispExpr::Quasiquote(Box::new(LispExpr::List(vec![
        sym("let"),
        LispExpr::List(vec![LispExpr::List(vec![
            sym("temp"),
            LispExpr::Unquote(Box::new(sym("a"))),
        ])]),
        LispExpr::List(vec![
            sym("set!"),
            LispExpr::Unquote(Box::new(sym("a"))),
            LispExpr::Unquote(Box::new(sym("b"))),
        ]),
        LispExpr::List(vec![
            sym("set!"),
            LispExpr::Unquote(Box::new(sym("b"))),
            sym("temp"),
        ]),
    ])));

    expander.define_macro(
        "swap".to_string(),
        vec!["a".to_string(), "b".to_string()],
        macro_body,
    );

    let macro_call = LispExpr::List(vec![sym("swap"), sym("x"), sym("y")]);

    let result = expander.expand_all(macro_call).unwrap();

    assert!(
        contains_gensym(&result),
        "Hygienic macro should rename introduced variables to gensyms"
    );
}

#[test]
fn test_hygiene_preserves_parameters() {
    let mut expander = MacroExpander::new();

    let macro_body = LispExpr::Quasiquote(Box::new(LispExpr::List(vec![
        sym("+"),
        LispExpr::Unquote(Box::new(sym("x"))),
        LispExpr::Unquote(Box::new(sym("x"))),
    ])));

    expander.define_macro("use-param".to_string(), vec!["x".to_string()], macro_body);

    let macro_call = LispExpr::List(vec![sym("use-param"), num("5")]);

    let result = expander.expand_all(macro_call).unwrap();

    let expected = LispExpr::List(vec![sym("+"), num("5"), num("5")]);

    assert_eq!(result, expected);
}

#[test]
fn test_hygiene_with_let_bindings() {
    let mut expander = MacroExpander::new();

    let macro_body = LispExpr::Quasiquote(Box::new(LispExpr::List(vec![
        sym("let"),
        LispExpr::List(vec![LispExpr::List(vec![
            sym("result"),
            LispExpr::Unquote(Box::new(sym("x"))),
        ])]),
        sym("result"),
    ])));

    expander.define_macro("with-temp".to_string(), vec!["x".to_string()], macro_body);

    let macro_call = LispExpr::List(vec![sym("with-temp"), num("42")]);

    let result = expander.expand_all(macro_call).unwrap();

    fn check_let_has_gensym(expr: &LispExpr) -> bool {
        match expr {
            LispExpr::List(elements) => {
                if let Some(LispExpr::Symbol(first)) = elements.first() {
                    if first == "let" && elements.len() >= 3 {
                        if let LispExpr::List(bindings) = &elements[1] {
                            for binding in bindings {
                                if let LispExpr::List(pair) = binding {
                                    if matches!(pair.first(), Some(LispExpr::Gensym(_))) {
                                        return true;
                                    }
                                }
                            }
                        }
                    }
                }
                elements.iter().any(check_let_has_gensym)
            }
            _ => false,
        }
    }

    assert!(
        check_let_has_gensym(&result),
        "Let-bound variables introduced by macros should be renamed to gensyms"
    );
}

#[test]
fn test_nested_macros_maintain_hygiene() {
    let mut expander = MacroExpander::new();

    expander.define_macro(
        "with-x".to_string(),
        vec!["val".to_string()],
        LispExpr::Quasiquote(Box::new(LispExpr::List(vec![
            sym("let"),
            LispExpr::List(vec![LispExpr::List(vec![
                sym("x"),
                LispExpr::Unquote(Box::new(sym("val"))),
            ])]),
            sym("x"),
        ]))),
    );

    expander.define_macro(
        "with-y".to_string(),
        vec!["val".to_string()],
        LispExpr::Quasiquote(Box::new(LispExpr::List(vec![
            sym("let"),
            LispExpr::List(vec![LispExpr::List(vec![
                sym("y"),
                LispExpr::Unquote(Box::new(sym("val"))),
            ])]),
            sym("y"),
        ]))),
    );

    let macro_call = LispExpr::List(vec![
        sym("with-x"),
        LispExpr::List(vec![sym("with-y"), num("10")]),
    ]);

    let result = expander.expand_all(macro_call).unwrap();

    fn count_gensyms(expr: &LispExpr) -> usize {
        match expr {
            LispExpr::Gensym(_) => 1,
            LispExpr::List(elements) => elements.iter().map(count_gensyms).sum(),
            LispExpr::Quote(inner)
            | LispExpr::Quasiquote(inner)
            | LispExpr::Unquote(inner)
            | LispExpr::Splice(inner) => count_gensyms(inner),
            _ => 0,
        }
    }

    let gensym_count = count_gensyms(&result);
    assert!(
        gensym_count >= 2,
        "Nested macros should each introduce at least one gensym, found: {}",
        gensym_count
    );
}

#[test]
fn test_hygiene_does_not_rename_quoted_symbols() {
    let mut expander = MacroExpander::new();

    let macro_body = LispExpr::Quasiquote(Box::new(LispExpr::Quote(Box::new(sym("symbol")))));

    expander.define_macro("get-quoted".to_string(), vec!["x".to_string()], macro_body);

    let macro_call = LispExpr::List(vec![sym("get-quoted"), num("1")]);

    let result = expander.expand_all(macro_call).unwrap();

    if let LispExpr::Quote(inner) = result {
        assert!(
            matches!(*inner, LispExpr::Symbol(_)),
            "Quoted symbols should not be renamed to gensyms"
        );
    } else {
        panic!("Expected Quote expression");
    }
}

#[test]
fn test_rest_parameter_basic() {
    let mut expander = MacroExpander::new();

    expander.define_macro(
        "my-list".to_string(),
        vec!["first".to_string(), "&rest".to_string(), "rest".to_string()],
        LispExpr::Quasiquote(Box::new(LispExpr::List(vec![
            sym("list"),
            LispExpr::Unquote(Box::new(sym("first"))),
            LispExpr::Splice(Box::new(sym("rest"))),
        ]))),
    );

    let macro_call = LispExpr::List(vec![sym("my-list"), num("1"), num("2"), num("3"), num("4")]);

    let result = expander.expand_all(macro_call).unwrap();

    let expected = LispExpr::List(vec![sym("list"), num("1"), num("2"), num("3"), num("4")]);

    assert_eq!(result, expected);
}

#[test]
fn test_rest_parameter_empty() {
    let mut expander = MacroExpander::new();

    expander.define_macro(
        "my-list".to_string(),
        vec!["first".to_string(), "&rest".to_string(), "rest".to_string()],
        LispExpr::Quasiquote(Box::new(LispExpr::List(vec![
            sym("list"),
            LispExpr::Unquote(Box::new(sym("first"))),
            LispExpr::Splice(Box::new(sym("rest"))),
        ]))),
    );

    let macro_call = LispExpr::List(vec![sym("my-list"), num("1")]);

    let result = expander.expand_all(macro_call).unwrap();

    let expected = LispExpr::List(vec![sym("list"), num("1")]);

    assert_eq!(result, expected);
}

#[test]
fn test_rest_parameter_multiple_required() {
    let mut expander = MacroExpander::new();

    expander.define_macro(
        "add-first-two-then-rest".to_string(),
        vec![
            "a".to_string(),
            "b".to_string(),
            "&rest".to_string(),
            "rest".to_string(),
        ],
        LispExpr::Quasiquote(Box::new(LispExpr::List(vec![
            sym("+"),
            LispExpr::List(vec![
                sym("+"),
                LispExpr::Unquote(Box::new(sym("a"))),
                LispExpr::Unquote(Box::new(sym("b"))),
            ]),
            LispExpr::Splice(Box::new(sym("rest"))),
        ]))),
    );

    let macro_call = LispExpr::List(vec![
        sym("add-first-two-then-rest"),
        num("1"),
        num("2"),
        num("3"),
        num("4"),
        num("5"),
    ]);

    let result = expander.expand_all(macro_call).unwrap();

    let expected = LispExpr::List(vec![
        sym("+"),
        LispExpr::List(vec![sym("+"), num("1"), num("2")]),
        num("3"),
        num("4"),
        num("5"),
    ]);

    assert_eq!(result, expected);
}

#[test]
fn test_rest_parameter_too_few_args() {
    let mut expander = MacroExpander::new();

    expander.define_macro(
        "needs-two-plus".to_string(),
        vec![
            "a".to_string(),
            "b".to_string(),
            "&rest".to_string(),
            "rest".to_string(),
        ],
        sym("body"),
    );

    let macro_call = LispExpr::List(vec![sym("needs-two-plus"), num("1")]);

    let result = expander.expand_all(macro_call);

    assert!(result.is_err());
    if let Err(MacroError::ParameterCountMismatch { macro_name, expected, actual }) = result {
        assert_eq!(macro_name, "needs-two-plus");
        assert_eq!(expected, 2);
        assert_eq!(actual, 1);
    } else {
        panic!("Expected ParameterCountMismatch error");
    }
}

#[test]
fn test_rest_without_name_error() {
    let mut expander = MacroExpander::new();

    expander.define_macro(
        "bad-macro".to_string(),
        vec!["a".to_string(), "&rest".to_string()],
        sym("body"),
    );

    let macro_call = LispExpr::List(vec![sym("bad-macro"), num("1")]);

    let result = expander.expand_all(macro_call);

    assert!(result.is_err());
    if let Err(MacroError::InvalidPattern { pattern, reason }) = result {
        assert_eq!(pattern, "&rest");
        assert!(reason.contains("&rest must be followed by a parameter name"));
    } else {
        panic!("Expected InvalidPattern error for &rest without name, got: {:?}", result);
    }
}

#[test]
fn test_params_after_rest_error() {
    let mut expander = MacroExpander::new();

    expander.define_macro(
        "bad-macro".to_string(),
        vec![
            "a".to_string(),
            "&rest".to_string(),
            "rest".to_string(),
            "extra".to_string(),
        ],
        sym("body"),
    );

    let macro_call = LispExpr::List(vec![sym("bad-macro"), num("1"), num("2")]);

    let result = expander.expand_all(macro_call);

    assert!(result.is_err());
    if let Err(MacroError::InvalidPattern { pattern, reason }) = result {
        assert!(pattern.contains("&rest"));
        assert!(reason.contains("Parameters cannot appear after &rest parameter"));
    } else {
        panic!("Expected InvalidPattern error for parameters after &rest, got: {:?}", result);
    }
}

#[test]
fn test_when_macro_with_rest() {
    let mut expander = MacroExpander::new();

    expander.define_macro(
        "when".to_string(),
        vec![
            "condition".to_string(),
            "&rest".to_string(),
            "body".to_string(),
        ],
        LispExpr::Quasiquote(Box::new(LispExpr::List(vec![
            sym("if"),
            LispExpr::Unquote(Box::new(sym("condition"))),
            LispExpr::List(vec![sym("progn"), LispExpr::Splice(Box::new(sym("body")))]),
            LispExpr::Nil,
        ]))),
    );

    let macro_call = LispExpr::List(vec![
        sym("when"),
        LispExpr::List(vec![sym(">"), sym("x"), num("5")]),
        LispExpr::List(vec![sym("print"), LispExpr::String("big".to_string())]),
        LispExpr::List(vec![sym("+"), sym("x"), num("1")]),
    ]);

    let result = expander.expand_all(macro_call).unwrap();

    if let LispExpr::List(elements) = &result {
        assert!(
            elements.len() >= 3,
            "Expected at least 3 elements in if expression, got {}",
            elements.len()
        );
        assert_eq!(elements[0], sym("if"));

        if let LispExpr::List(progn_parts) = &elements[2] {
            assert_eq!(progn_parts.len(), 3);
            assert_eq!(progn_parts[0], sym("progn"));
        } else {
            panic!("Expected List for progn body");
        }
    } else {
        panic!("Expected List for if expression");
    }
}

#[test]
fn test_error_message_quality_undefined_macro() {
    let mut expander = MacroExpander::new();

    let macro_call = LispExpr::List(vec![sym("undefined"), num("1")]);

    let result = expander.expand_all(macro_call.clone());
    assert!(result.is_ok());
    assert_eq!(result.unwrap(), macro_call);
}

#[test]
fn test_error_message_quality_param_mismatch() {
    let mut expander = MacroExpander::new();

    expander.define_macro(
        "my-macro".to_string(),
        vec!["x".to_string(), "y".to_string()],
        sym("body"),
    );

    let macro_call = LispExpr::List(vec![sym("my-macro"), num("1")]);

    let result = expander.expand_all(macro_call);
    assert!(result.is_err());

    let error = result.unwrap_err();
    let error_msg = error.message();

    assert!(error_msg.contains("my-macro"));
    assert!(error_msg.contains("2"));
    assert!(error_msg.contains("1"));
    assert!(error_msg.contains("Help"));
}

#[test]
fn test_error_message_quality_max_depth() {
    let mut expander = MacroExpander::with_max_depth(5);

    expander.define_macro(
        "infinite".to_string(),
        vec!["x".to_string()],
        LispExpr::Quasiquote(Box::new(LispExpr::List(vec![
            sym("infinite"),
            LispExpr::Unquote(Box::new(sym("x"))),
        ]))),
    );

    let macro_call = LispExpr::List(vec![sym("infinite"), num("1")]);

    let result = expander.expand_all(macro_call);
    assert!(result.is_err());

    let error = result.unwrap_err();
    let error_msg = error.message();

    assert!(error_msg.contains("infinite"));
    assert!(error_msg.contains("5"));
    assert!(error_msg.contains("Help"));
    assert!(error_msg.contains("infinite recursion") || error_msg.contains("base case"));
}

#[test]
fn test_error_message_quality_invalid_pattern() {
    let mut expander = MacroExpander::new();

    expander.define_macro(
        "bad".to_string(),
        vec!["a".to_string(), "&rest".to_string()],
        sym("body"),
    );

    let macro_call = LispExpr::List(vec![sym("bad"), num("1")]);

    let result = expander.expand_all(macro_call);
    assert!(result.is_err());

    let error = result.unwrap_err();
    let error_msg = error.message();

    assert!(error_msg.contains("&rest"));
    assert!(error_msg.contains("parameter name"));
    assert!(error_msg.contains("Help"));
}

#[test]
fn test_error_context_in_expansion_error() {
    let error = MacroError::ExpansionError {
        message: "Something went wrong".to_string(),
        context: Some("While expanding macro foo".to_string()),
    };

    let error_msg = error.message();
    assert!(error_msg.contains("Something went wrong"));
    assert!(error_msg.contains("While expanding macro foo"));
    assert!(error_msg.contains("Help"));
}

#[test]
fn test_clone_and_partialeq_on_errors() {
    let error1 = MacroError::UndefinedMacro("test".to_string());
    let error2 = error1.clone();

    assert_eq!(error1, error2);

    let error3 = MacroError::ParameterCountMismatch {
        macro_name: "foo".to_string(),
        expected: 2,
        actual: 1,
    };
    let error4 = error3.clone();

    assert_eq!(error3, error4);
    assert_ne!(error1, error3);
}

#[test]
fn test_quote_opacity_scenario() {
    let mut expander = MacroExpander::new();
    expander.define_macro("m".to_string(), vec![], num("1"));
    let t = LispExpr::Quote(Box::new(LispExpr::List(vec![sym("m")])));
    let result = expander.expand_all(t.clone()).unwrap();
    assert_eq!(result, t);
}

#[test]
fn test_idempotence_on_macro_free_input() {
    let mut expander = MacroExpander::new();
    let t = LispExpr::List(vec![
        sym("+"),
        num("1"),
        LispExpr::Nil,
        LispExpr::Quote(Box::new(sym("a"))),
        LispExpr::Quasiquote(Box::new(LispExpr::List(vec![sym("b"), num("2")]))),
    ]);
    let once = expander.expand_all(t.clone()).unwrap();
    assert_eq!(once, t);
    let twice = expander.expand_all(once.clone()).unwrap();
    assert_eq!(twice, once);
}

#[test]
fn test_splice_flattening_scenario() {
    let mut expander = MacroExpander::new();
    expander.define_macro(
        "m".to_string(),
        vec!["xs".to_string()],
        LispExpr::Quasiquote(Box::new(LispExpr::List(vec![
            sym("a"),
            LispExpr::Splice(Box::new(sym("xs"))),
            sym("b"),
        ]))),
    );
    let call = LispExpr::List(vec![
        sym("m"),
        LispExpr::List(vec![num("1"), num("2")]),
    ]);
    let result = expander.expand_all(call).unwrap();
    match result {
        LispExpr::List(es) => {
            assert_eq!(es.len(), 4);
            assert_eq!(es[1], num("1"));
            assert_eq!(es[2], num("2"));
        }
        _ => panic!("Expected List"),
    }
}

#[test]
fn test_splice_of_non_list_fails() {
    let mut expander = MacroExpander::new();
    expander.define_macro(
        "m".to_string(),
        vec!["x".to_string()],
        LispExpr::Quasiquote(Box::new(LispExpr::List(vec![LispExpr::Splice(Box::new(
            sym("x"),
        ))]))),
    );
    let call = LispExpr::List(vec![sym("m"), num("7")]);
    let result = expander.expand_all(call);
    match result {
        Err(MacroError::ExpansionError { message, context }) => {
            assert!(message.contains("must expand to a list"));
            // The error carries a rendering of the offending value.
            assert!(context.unwrap().contains("Number(7)"));
        }
        other => panic!("Expected ExpansionError, got {:?}", other),
    }
}

#[test]
fn test_literal_nil_children_survive_expansion() {
    let mut expander = MacroExpander::new();
    let t = LispExpr::List(vec![sym("list"), LispExpr::Nil, num("2")]);
    let result = expander.expand_all(t.clone()).unwrap();
    assert_eq!(result, t);
}

#[test]
fn test_call_expanding_to_nil_is_pruned() {
    let mut expander = MacroExpander::new();
    expander.define_macro("nothing".to_string(), vec![], LispExpr::Nil);
    let t = LispExpr::List(vec![
        sym("list"),
        LispExpr::List(vec![sym("nothing")]),
        num("2"),
    ]);
    let result = expander.expand_all(t).unwrap();
    assert_eq!(result, LispExpr::List(vec![sym("list"), num("2")]));
}

#[test]
fn test_macro_definitions_disappear_scenario() {
    let mut expander = MacroExpander::new();
    let program = LispExpr::List(vec![
        LispExpr::Macro {
            name: "d".to_string(),
            parameters: vec!["x".to_string()],
            body: Box::new(LispExpr::Unquote(Box::new(sym("x")))),
        },
        num("3"),
    ]);
    let result = expander.expand_all(program).unwrap();
    // The definition expanded to Nil and was pruned from the list.
    assert_eq!(result, LispExpr::List(vec![num("3")]));
}
