use lispkit::ast::LispExpr;
use lispkit::pipeline::{compile_from_ir, compile_lisp, compile_to_ir, validate_ast};
use lispkit::transform::{EchoTransform, TransformRegistry};

fn no_transforms() -> TransformRegistry<EchoTransform> {
    TransformRegistry::new()
}

#[test]
fn test_pipeline_simple_macro() {
    let source = r#"
        (defmacro double (x) `(* ,x 2))
        (double 5)
    "#;

    let result = compile_lisp(source, no_transforms(), false).unwrap();

    assert!(result.contains("(5 * 2)"));
}

#[test]
fn test_pipeline_macro_with_multiple_params() {
    let source = r#"
        (defmacro add-and-mult (a b c) `(* (+ ,a ,b) ,c))
        (add-and-mult 1 2 3)
    "#;

    let result = compile_lisp(source, no_transforms(), false).unwrap();

    assert!(result.contains("((1 + 2) * 3)"));
}

#[test]
fn test_pipeline_nested_macros() {
    let source = r#"
        (defmacro double (x) `(* ,x 2))
        (defmacro quadruple (x) `(double (double ,x)))
        (quadruple 5)
    "#;

    let result = compile_lisp(source, no_transforms(), false).unwrap();

    assert!(result.contains("((5 * 2) * 2)"));
}

#[test]
fn test_pipeline_macro_with_regular_code() {
    let source = r#"
        (defmacro square (x) `(* ,x ,x))
        (+ (square 3) (square 4))
    "#;

    let result = compile_lisp(source, no_transforms(), false).unwrap();

    assert!(result.contains("((3 * 3) + (4 * 4))"));
}

#[test]
fn test_pipeline_macro_depth_limit() {
    let source = r#"
        (defmacro infinite (x) `(infinite ,x))
        (infinite 1)
    "#;

    let result = compile_lisp(source, no_transforms(), false);

    assert!(result.is_err());
    let error_msg = result.unwrap_err();
    assert!(error_msg.contains("Maximum expansion depth"));
    assert!(error_msg.contains("infinite"));
}

#[test]
fn test_pipeline_macro_parameter_mismatch() {
    let source = r#"
        (defmacro needs-two (a b) `(+ ,a ,b))
        (needs-two 1)
    "#;

    let result = compile_lisp(source, no_transforms(), false);

    assert!(result.is_err());
    assert!(result.unwrap_err().contains("Parameter count mismatch"));
}

#[test]
fn test_pipeline_ordering() {
    let source = r#"
        (defmacro when (condition body else-body) `(if ,condition ,body ,else-body))
        (when (> 5 3) (+ 1 2) (+ 4 5))
    "#;

    let result = compile_lisp(source, no_transforms(), false).unwrap();

    assert!(result.contains("if"));
    assert!(result.contains("(5 > 3)"));
    assert!(result.contains("(1 + 2)"));
}

#[test]
fn test_pipeline_multiple_macros() {
    let source = r#"
        (defmacro inc (x) `(+ ,x 1))
        (defmacro dec (x) `(- ,x 1))
        (+ (inc 5) (dec 10))
    "#;

    let result = compile_lisp(source, no_transforms(), false).unwrap();

    assert!(result.contains("((5 + 1) + (10 - 1))"));
}

#[test]
fn test_pipeline_rest_parameter() {
    let source = r#"
        (defmacro add-all (first &rest rest) `(+ ,first ,@rest))
        (add-all 1 2 3 4 5)
    "#;

    let result = compile_lisp(source, no_transforms(), false).unwrap();

    assert!(result.contains("(1 + 2 + 3 + 4 + 5)"));
}

#[test]
fn test_pipeline_rest_parameter_empty() {
    let source = r#"
        (defmacro add-all (first &rest rest) `(+ ,first ,@rest))
        (add-all 42)
    "#;

    let result = compile_lisp(source, no_transforms(), false).unwrap();

    assert!(result.contains("42"));
}

#[test]
fn test_pipeline_rest_with_multiple_required() {
    let source = r#"
        (defmacro add-first-two-then-rest (a b &rest rest) `(+ (+ ,a ,b) ,@rest))
        (add-first-two-then-rest 1 2 3 4)
    "#;

    let result = compile_lisp(source, no_transforms(), false).unwrap();

    assert!(result.contains("((1 + 2) + 3 + 4)"));
}

#[test]
fn test_pipeline_rest_too_few_args_error() {
    let source = r#"
        (defmacro needs-two (a b &rest rest) `(+ ,a ,b))
        (needs-two 1)
    "#;

    let result = compile_lisp(source, no_transforms(), false);

    assert!(result.is_err());
    assert!(result.unwrap_err().contains("Parameter count mismatch"));
}

#[test]
fn test_pipeline_rest_complex_macro() {
    let source = r#"
        (defmacro my-list (first &rest rest) `(list ,first ,@rest))
        (+ (my-list 1 2 3) (my-list 10 20))
    "#;

    let result = compile_lisp(source, no_transforms(), false).unwrap();

    assert!(result.contains("vec![1, 2, 3]"));
    assert!(result.contains("vec![10, 20]"));
}

#[test]
fn test_pipeline_with_echo_transform() {
    let source = r#"
        (+ 1 2)
    "#;

    let mut registry = TransformRegistry::new();
    registry.register(EchoTransform::new());
    let result = compile_lisp(source, registry, false).unwrap();

    assert!(result.contains("(1 + 2)"));
}

#[test]
fn test_pipeline_transform_preserves_semantics() {
    let source = r#"
        (defmacro double (x) `(* ,x 2))
        (double 21)
    "#;

    let result1 = compile_lisp(source, no_transforms(), false).unwrap();

    let mut registry2 = TransformRegistry::new();
    registry2.register(EchoTransform::new());
    let result2 = compile_lisp(source, registry2, false).unwrap();

    assert_eq!(result1, result2);
}

#[test]
fn test_validation_type_safety_error() {
    let source = r#"
        (+ "hello" 42)
    "#;

    let result = compile_lisp(source, no_transforms(), true);

    assert!(result.is_err());
    let error = result.unwrap_err();
    assert!(error.contains("Validation failed"));
    assert!(error.contains("Type mismatch"));
    assert!(error.contains("arithmetic operation"));
}

#[test]
fn test_validation_passes_with_valid_code() {
    let source = r#"
        (+ 1 2)
    "#;

    let result = compile_lisp(source, no_transforms(), true);

    assert!(result.is_ok());
    assert!(result.unwrap().contains("(1 + 2)"));
}

#[test]
fn test_validation_resource_bounds_error() {
    let source = r#"
        (define (infinite-loop) (infinite-loop))
    "#;

    let result = compile_lisp(source, no_transforms(), true);

    assert!(result.is_err());
    let error = result.unwrap_err();
    assert!(error.contains("Validation failed"));
    assert!(error.contains("Infinite recursion"));
}

#[test]
fn test_validation_ffi_restrictions_error() {
    let source = r#"
        (rust-unsafe "dangerous code")
    "#;

    let result = compile_lisp(source, no_transforms(), true);

    assert!(result.is_err());
    let error = result.unwrap_err();
    assert!(error.contains("Validation failed"));
    assert!(error.contains("FFI restriction"));
    assert!(error.contains("unsafe operation"));
}

#[test]
fn test_validation_disabled_by_default() {
    let source = r#"
        (+ "hello" 42)
    "#;

    let result = compile_lisp(source, no_transforms(), false);

    assert!(result.is_ok());
}

#[test]
fn test_validation_with_macros() {
    let source = r#"
        (defmacro bad-add (x) `(+ ,x "string"))
        (bad-add 5)
    "#;

    let result = compile_lisp(source, no_transforms(), true);

    assert!(result.is_ok() || result.is_err());
}

#[test]
fn test_validation_nested_expressions() {
    let source = r#"
        (+ 1 (* 2 3))
    "#;

    let result = compile_lisp(source, no_transforms(), true);

    assert!(result.is_ok());
    assert!(result.unwrap().contains("(1 + (2 * 3))"));
}

#[test]
fn test_validate_ast_aggregates_first_failing_term() {
    let good = LispExpr::List(vec![
        LispExpr::Symbol("+".to_string()),
        LispExpr::Number("1".to_string()),
    ]);
    let bad = LispExpr::List(vec![
        LispExpr::Symbol("+".to_string()),
        LispExpr::String("x".to_string()),
    ]);
    assert!(validate_ast(&vec![good.clone()]).is_ok());
    let err = validate_ast(&vec![good, bad]).unwrap_err();
    assert!(err.contains("Validation failed with 1 error(s):"));
    assert!(err.contains("TypeSafety violation"));
}

#[test]
fn test_ir_round_trip_through_pipeline() {
    let source = r#"
        (defmacro double (x) `(* ,x 2))
        (double 5)
    "#;
    let ir = compile_to_ir(source, no_transforms(), false).unwrap();
    let code = compile_from_ir(&ir, false).unwrap();
    assert!(code.contains("(5 * 2)"));
}

#[test]
fn test_unknown_head_passes_through() {
    let source = "(foo 1 2)";
    let result = compile_lisp(source, no_transforms(), false);
    // The unknown head survives expansion and the lowerer reports it.
    let err = result.unwrap_err();
    assert!(err.contains("Unknown function: foo"));
}
