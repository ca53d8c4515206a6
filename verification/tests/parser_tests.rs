use lispkit::ast::LispExpr;
use lispkit::lexer::tokenize;
use lispkit::parser::parse;

fn num(s: &str) -> LispExpr {
    LispExpr::Number(s.to_string())
}

#[test]
fn test_parse_atom() {
    let tokens = tokenize("42").unwrap();
    let ast = parse(tokens).unwrap();
    assert_eq!(ast, vec![num("42")]);
}

#[test]
fn test_parse_simple_list() {
    let tokens = tokenize("(+ 1 2)").unwrap();
    let ast = parse(tokens).unwrap();
    assert_eq!(
        ast,
        vec![LispExpr::List(vec![
            LispExpr::Symbol("+".to_string()),
            num("1"),
            num("2"),
        ])]
    );
}

#[test]
fn test_parse_nested_list() {
    let tokens = tokenize("(* (+ 1 2) 3)").unwrap();
    let ast = parse(tokens).unwrap();
    assert_eq!(
        ast,
        vec![LispExpr::List(vec![
            LispExpr::Symbol("*".to_string()),
            LispExpr::List(vec![
                LispExpr::Symbol("+".to_string()),
                num("1"),
                num("2"),
            ]),
            num("3"),
        ])]
    );
}

#[test]
fn test_parse_basic_defmacro() {
    let tokens = tokenize("(defmacro when (condition) body)").unwrap();
    let ast = parse(tokens).unwrap();

    assert_eq!(ast.len(), 1);
    match &ast[0] {
        LispExpr::Macro { name, parameters, body } => {
            assert_eq!(name, "when");
            assert_eq!(parameters, &vec!["condition".to_string()]);
            assert_eq!(**body, LispExpr::Symbol("body".to_string()));
        }
        _ => panic!("Expected Macro variant"),
    }
}

#[test]
fn test_parse_defmacro_with_rest_params() {
    let tokens = tokenize("(defmacro when (condition &rest body) nil)").unwrap();
    let ast = parse(tokens).unwrap();

    assert_eq!(ast.len(), 1);
    match &ast[0] {
        LispExpr::Macro { name, parameters, body } => {
            assert_eq!(name, "when");
            assert_eq!(
                parameters,
                &vec![
                    "condition".to_string(),
                    "&rest".to_string(),
                    "body".to_string()
                ]
            );
            assert_eq!(**body, LispExpr::Nil);
        }
        _ => panic!("Expected Macro variant"),
    }
}

#[test]
fn test_parse_defmacro_with_complex_body() {
    let tokens =
        tokenize("(defmacro when (condition &rest body) (if condition (progn body) nil))")
            .unwrap();
    let ast = parse(tokens).unwrap();

    assert_eq!(ast.len(), 1);
    match &ast[0] {
        LispExpr::Macro { name, parameters, body } => {
            assert_eq!(name, "when");
            assert_eq!(
                parameters,
                &vec![
                    "condition".to_string(),
                    "&rest".to_string(),
                    "body".to_string()
                ]
            );
            match body.as_ref() {
                LispExpr::List(elements) => {
                    assert_eq!(elements.len(), 4);
                    assert_eq!(elements[0], LispExpr::Symbol("if".to_string()));
                }
                _ => panic!("Expected List for macro body"),
            }
        }
        _ => panic!("Expected Macro variant"),
    }
}

#[test]
fn test_parse_defmacro_error_missing_name() {
    let tokens = tokenize("(defmacro)").unwrap();
    let result = parse(tokens);
    assert!(result.is_err());
    assert!(result.unwrap_err().contains("Missing macro name"));
}

#[test]
fn test_parse_defmacro_error_missing_params() {
    let tokens = tokenize("(defmacro test)").unwrap();
    let result = parse(tokens);
    assert!(result.is_err());
    assert!(result.unwrap_err().contains("Missing parameter list"));
}

#[test]
fn test_parse_defmacro_error_missing_body() {
    let tokens = tokenize("(defmacro test ())").unwrap();
    let result = parse(tokens);
    assert!(result.is_err());
    assert!(result.unwrap_err().contains("Missing macro body"));
}

#[test]
fn test_parse_quote_shorthand() {
    let tokens = tokenize("'x").unwrap();
    let ast = parse(tokens).unwrap();

    assert_eq!(ast.len(), 1);
    match &ast[0] {
        LispExpr::Quote(expr) => {
            assert_eq!(**expr, LispExpr::Symbol("x".to_string()));
        }
        _ => panic!("Expected Quote variant"),
    }
}

#[test]
fn test_parse_quote_longhand() {
    let tokens = tokenize("(quote x)").unwrap();
    let ast = parse(tokens).unwrap();

    assert_eq!(ast.len(), 1);
    match &ast[0] {
        LispExpr::Quote(expr) => {
            assert_eq!(**expr, LispExpr::Symbol("x".to_string()));
        }
        _ => panic!("Expected Quote variant"),
    }
}

#[test]
fn test_parse_quasiquote_shorthand() {
    let tokens = tokenize("`(+ ,x 2)").unwrap();
    let ast = parse(tokens).unwrap();

    assert_eq!(ast.len(), 1);
    match &ast[0] {
        LispExpr::Quasiquote(expr) => match expr.as_ref() {
            LispExpr::List(elements) => {
                assert_eq!(elements.len(), 3);
                assert_eq!(elements[0], LispExpr::Symbol("+".to_string()));
                match &elements[1] {
                    LispExpr::Unquote(unquoted) => {
                        assert_eq!(**unquoted, LispExpr::Symbol("x".to_string()));
                    }
                    _ => panic!("Expected Unquote variant for ,x"),
                }
                assert_eq!(elements[2], num("2"));
            }
            _ => panic!("Expected List in quasiquote"),
        },
        _ => panic!("Expected Quasiquote variant"),
    }
}

#[test]
fn test_parse_quasiquote_longhand() {
    let tokens = tokenize("(quasiquote (+ (unquote x) 2))").unwrap();
    let ast = parse(tokens).unwrap();

    assert_eq!(ast.len(), 1);
    match &ast[0] {
        LispExpr::Quasiquote(expr) => match expr.as_ref() {
            LispExpr::List(elements) => {
                assert_eq!(elements.len(), 3);
                assert_eq!(elements[0], LispExpr::Symbol("+".to_string()));
                match &elements[1] {
                    LispExpr::Unquote(unquoted) => {
                        assert_eq!(**unquoted, LispExpr::Symbol("x".to_string()));
                    }
                    _ => panic!("Expected Unquote variant"),
                }
                assert_eq!(elements[2], num("2"));
            }
            _ => panic!("Expected List in quasiquote"),
        },
        _ => panic!("Expected Quasiquote variant"),
    }
}

#[test]
fn test_parse_splice_shorthand() {
    let tokens = tokenize("`(list ,@items)").unwrap();
    let ast = parse(tokens).unwrap();

    assert_eq!(ast.len(), 1);
    match &ast[0] {
        LispExpr::Quasiquote(expr) => match expr.as_ref() {
            LispExpr::List(elements) => {
                assert_eq!(elements.len(), 2);
                assert_eq!(elements[0], LispExpr::Symbol("list".to_string()));
                match &elements[1] {
                    LispExpr::Splice(spliced) => {
                        assert_eq!(**spliced, LispExpr::Symbol("items".to_string()));
                    }
                    _ => panic!("Expected Splice variant for ,@items"),
                }
            }
            _ => panic!("Expected List in quasiquote"),
        },
        _ => panic!("Expected Quasiquote variant"),
    }
}

#[test]
fn test_parse_splice_longhand() {
    let tokens = tokenize("(quasiquote (list (unquote-splicing items)))").unwrap();
    let ast = parse(tokens).unwrap();

    assert_eq!(ast.len(), 1);
    match &ast[0] {
        LispExpr::Quasiquote(expr) => match expr.as_ref() {
            LispExpr::List(elements) => {
                assert_eq!(elements.len(), 2);
                assert_eq!(elements[0], LispExpr::Symbol("list".to_string()));
                match &elements[1] {
                    LispExpr::Splice(spliced) => {
                        assert_eq!(**spliced, LispExpr::Symbol("items".to_string()));
                    }
                    _ => panic!("Expected Splice variant"),
                }
            }
            _ => panic!("Expected List in quasiquote"),
        },
        _ => panic!("Expected Quasiquote variant"),
    }
}

#[test]
fn test_parse_nested_quotes() {
    let tokens = tokenize("'`(+ ,x)").unwrap();
    let ast = parse(tokens).unwrap();

    assert_eq!(ast.len(), 1);
    match &ast[0] {
        LispExpr::Quote(expr) => match expr.as_ref() {
            LispExpr::Quasiquote(inner) => match inner.as_ref() {
                LispExpr::List(elements) => {
                    assert_eq!(elements.len(), 2);
                    assert_eq!(elements[0], LispExpr::Symbol("+".to_string()));
                    match &elements[1] {
                        LispExpr::Unquote(unquoted) => {
                            assert_eq!(**unquoted, LispExpr::Symbol("x".to_string()));
                        }
                        _ => panic!("Expected Unquote variant"),
                    }
                }
                _ => panic!("Expected List in nested quasiquote"),
            },
            _ => panic!("Expected Quasiquote in quote"),
        },
        _ => panic!("Expected Quote variant"),
    }
}

#[test]
fn test_parse_quote_error_missing_expression() {
    let tokens = tokenize("'").unwrap();
    let result = parse(tokens);
    assert!(result.is_err());
    assert!(result.unwrap_err().contains("Expected expression after quote"));
}

#[test]
fn test_parse_unclosed_list() {
    let tokens = tokenize("(+ 1 2").unwrap();
    let result = parse(tokens);
    assert!(result.is_err());
    assert!(result.unwrap_err().contains("Unclosed list"));
}

#[test]
fn test_parse_unexpected_close() {
    let tokens = tokenize(")").unwrap();
    let result = parse(tokens);
    assert!(result.is_err());
    assert!(result.unwrap_err().contains("Unexpected ')'"));
}
