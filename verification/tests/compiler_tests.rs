use lispkit::compiler::compile_to_rust;
use lispkit::lexer::tokenize;
use lispkit::parser::parse;

#[test]
fn test_compile_arithmetic() {
    let tokens = tokenize("(+ 1 2 3)").unwrap();
    let ast = parse(tokens).unwrap();
    let rust_code = compile_to_rust(&ast).unwrap();

    assert!(rust_code.contains("(1 + 2 + 3)"));
}

#[test]
fn test_compile_nested_expression() {
    let tokens = tokenize("(* (+ 1 2) 3)").unwrap();
    let ast = parse(tokens).unwrap();
    let rust_code = compile_to_rust(&ast).unwrap();

    assert!(rust_code.contains("((1 + 2) * 3)"));
}

#[test]
fn test_compile_let_and_list() {
    let tokens = tokenize("(let ((a 1) (b 2)) (+ a b))").unwrap();
    let ast = parse(tokens).unwrap();
    let err = compile_to_rust(&ast).unwrap_err();
    assert!(err.contains("Unknown symbol: a"));

    let tokens = tokenize("(list 1 2 3)").unwrap();
    let ast = parse(tokens).unwrap();
    let code = compile_to_rust(&ast).unwrap();
    assert!(code.contains("vec![1, 2, 3]"));
}

#[test]
fn test_compile_error_cases() {
    let tokens = tokenize("(frobnicate 1)").unwrap();
    let ast = parse(tokens).unwrap();
    let err = compile_to_rust(&ast).unwrap_err();
    assert!(err.contains("Unknown function: frobnicate"));

    let tokens = tokenize("(= 1 2 3)").unwrap();
    let ast = parse(tokens).unwrap();
    let err = compile_to_rust(&ast).unwrap_err();
    assert!(err.contains("requires exactly 2 arguments"));

    let tokens = tokenize("(if true 1)").unwrap();
    let ast = parse(tokens).unwrap();
    let err = compile_to_rust(&ast).unwrap_err();
    assert!(err.contains("'if' requires exactly 3 arguments"));
}
