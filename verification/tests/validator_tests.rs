use lispkit::ast::LispExpr;
use lispkit::validator::{
    ASTValidator, ComplexityLimitsValidator, CompositeValidator, FFIRestrictionsValidator,
    InferredType, ResourceBoundsValidator, TypeSafetyValidator, ValidationError, ValidationRule,
};

fn num(s: &str) -> LispExpr {
    LispExpr::Number(s.to_string())
}

fn sym(s: &str) -> LispExpr {
    LispExpr::Symbol(s.to_string())
}

#[test]
fn test_type_safety_arithmetic_with_numbers() {
    let validator = TypeSafetyValidator::new();
    let expr = LispExpr::List(vec![sym("+"), num("1"), num("2")]);
    assert!(validator.validate(&expr).is_ok());
}

#[test]
fn test_type_safety_arithmetic_with_string_fails() {
    let validator = TypeSafetyValidator::new();
    let expr = LispExpr::List(vec![
        sym("+"),
        LispExpr::String("hello".to_string()),
        num("42"),
    ]);
    let result = validator.validate(&expr);
    assert!(result.is_err());
    if let Err(e) = result {
        assert_eq!(e.rule, ValidationRule::TypeSafety);
        assert!(e.message.contains("arithmetic operation"));
    }
}

#[test]
fn test_type_safety_nested_arithmetic() {
    let validator = TypeSafetyValidator::new();
    let expr = LispExpr::List(vec![
        sym("+"),
        num("1"),
        LispExpr::List(vec![sym("*"), num("2"), num("3")]),
    ]);
    assert!(validator.validate(&expr).is_ok());
}

#[test]
fn test_type_safety_comparison_mismatch() {
    let validator = TypeSafetyValidator::new();
    let expr = LispExpr::List(vec![
        sym("<"),
        num("1"),
        LispExpr::String("x".to_string()),
    ]);
    let result = validator.validate(&expr);
    assert!(result.is_err());
    if let Err(e) = result {
        assert_eq!(e.rule, ValidationRule::TypeSafety);
        assert!(e.message.contains("comparison"));
    }
}

#[test]
fn test_resource_bounds_immediate_recursion() {
    let validator = ResourceBoundsValidator::new();
    let expr = LispExpr::List(vec![
        sym("define"),
        LispExpr::List(vec![sym("infinite-loop")]),
        LispExpr::List(vec![sym("infinite-loop")]),
    ]);
    let result = validator.validate(&expr);
    assert!(result.is_err());
    if let Err(e) = result {
        assert_eq!(e.rule, ValidationRule::ResourceBounds);
        assert!(e.message.contains("Infinite recursion"));
    }
}

#[test]
fn test_resource_bounds_valid_recursion_with_condition() {
    let validator = ResourceBoundsValidator::new();
    let expr = LispExpr::List(vec![
        sym("define"),
        LispExpr::List(vec![sym("countdown"), sym("n")]),
        LispExpr::List(vec![
            sym("if"),
            LispExpr::List(vec![sym("="), sym("n"), num("0")]),
            num("0"),
            LispExpr::List(vec![
                sym("countdown"),
                LispExpr::List(vec![sym("-"), sym("n"), num("1")]),
            ]),
        ]),
    ]);
    assert!(validator.validate(&expr).is_ok());
}

#[test]
fn test_ffi_restrictions_unsafe_operation() {
    let validator = FFIRestrictionsValidator::new();
    let expr = LispExpr::List(vec![
        sym("rust-unsafe"),
        LispExpr::String("std::ptr::null()".to_string()),
    ]);
    let result = validator.validate(&expr);
    assert!(result.is_err());
    if let Err(e) = result {
        assert_eq!(e.rule, ValidationRule::FFIRestrictions);
        assert!(e.message.contains("unsafe operation"));
    }
}

#[test]
fn test_ffi_restrictions_allowed_operation() {
    let validator = FFIRestrictionsValidator::new().allow_function("rust-unsafe".to_string());
    let expr = LispExpr::List(vec![
        sym("rust-unsafe"),
        LispExpr::String("std::ptr::null()".to_string()),
    ]);
    assert!(validator.validate(&expr).is_ok());
}

#[test]
fn test_complexity_limits_shallow_nesting() {
    let validator = ComplexityLimitsValidator::new();
    let expr = LispExpr::List(vec![sym("+"), num("1"), num("2")]);
    assert!(validator.validate(&expr).is_ok());
}

#[test]
fn test_complexity_limits_deep_nesting_fails() {
    let validator = ComplexityLimitsValidator::new().with_max_nesting(5);

    let mut expr = num("1");
    for _ in 0..10 {
        expr = LispExpr::List(vec![sym("+"), expr, num("1")]);
    }

    let result = validator.validate(&expr);
    assert!(result.is_err());
    if let Err(e) = result {
        assert_eq!(e.rule, ValidationRule::ComplexityLimits);
        assert!(e.message.contains("nesting depth"));
    }
}

#[test]
fn test_composite_validator_all_pass() {
    let composite = CompositeValidator::new()
        .add_validator(ASTValidator::TypeSafety(TypeSafetyValidator::new()))
        .add_validator(ASTValidator::ResourceBounds(ResourceBoundsValidator::new()))
        .add_validator(ASTValidator::FFIRestrictions(FFIRestrictionsValidator::new()))
        .add_validator(ASTValidator::ComplexityLimits(ComplexityLimitsValidator::new()));

    let expr = LispExpr::List(vec![sym("+"), num("1"), num("2")]);

    assert!(composite.validate_all(&expr).is_ok());
}

#[test]
fn test_composite_validator_multiple_errors() {
    let composite = CompositeValidator::new()
        .add_validator(ASTValidator::TypeSafety(TypeSafetyValidator::new()))
        .add_validator(ASTValidator::FFIRestrictions(FFIRestrictionsValidator::new()));

    let expr = LispExpr::List(vec![
        sym("+"),
        LispExpr::String("hello".to_string()),
        LispExpr::List(vec![
            sym("rust-unsafe"),
            LispExpr::String("dangerous".to_string()),
        ]),
    ]);

    let result = composite.validate_all(&expr);
    assert!(result.is_err());
    if let Err(errors) = result {
        assert_eq!(errors.len(), 2);
        assert!(errors.iter().any(|e| e.rule == ValidationRule::TypeSafety));
        assert!(errors.iter().any(|e| e.rule == ValidationRule::FFIRestrictions));
    }
}

#[test]
fn test_infer_type_basic_types() {
    let validator = TypeSafetyValidator::new();
    assert_eq!(validator.infer_type(&num("42")), InferredType::Number);
    assert_eq!(
        validator.infer_type(&LispExpr::String("hello".to_string())),
        InferredType::String
    );
    assert_eq!(validator.infer_type(&LispExpr::Bool(true)), InferredType::Bool);
}

#[test]
fn test_infer_type_operations() {
    let validator = TypeSafetyValidator::new();
    assert_eq!(
        validator.infer_type(&LispExpr::List(vec![sym("+"), num("1")])),
        InferredType::Number
    );
    assert_eq!(
        validator.infer_type(&LispExpr::List(vec![sym("<"), num("1"), num("2")])),
        InferredType::Bool
    );
    assert_eq!(
        validator.infer_type(&LispExpr::List(vec![
            sym("if"),
            LispExpr::Bool(true),
            num("1"),
            num("2"),
        ])),
        InferredType::Number
    );
    assert_eq!(
        validator.infer_type(&LispExpr::List(vec![])),
        InferredType::List(Box::new(InferredType::Any))
    );
    assert_eq!(validator.infer_type(&LispExpr::Nil), InferredType::Symbol);
    assert_eq!(validator.infer_type(&sym("x")), InferredType::Unknown);
}

#[test]
fn test_validation_error_display() {
    let error = ValidationError {
        rule: ValidationRule::TypeSafety,
        message: "Type mismatch".to_string(),
        context: Some("line 42".to_string()),
    };
    let display = error.render();
    assert!(display.contains("TypeSafety"));
    assert!(display.contains("Type mismatch"));
    assert!(display.contains("line 42"));
}

#[test]
fn test_enabled_rules() {
    let v = ASTValidator::TypeSafety(TypeSafetyValidator::new());
    assert_eq!(v.enabled_rules(), vec![ValidationRule::TypeSafety]);
    let v = ASTValidator::ComplexityLimits(ComplexityLimitsValidator::new());
    assert_eq!(v.enabled_rules(), vec![ValidationRule::ComplexityLimits]);
}

#[test]
fn test_types_compatible() {
    let v = TypeSafetyValidator::new();
    assert!(v.types_compatible(&InferredType::Number, &InferredType::Number));
    assert!(v.types_compatible(&InferredType::Number, &InferredType::Unknown));
    assert!(v.types_compatible(&InferredType::Any, &InferredType::String));
    assert!(!v.types_compatible(&InferredType::Number, &InferredType::String));
    assert!(v.types_compatible(
        &InferredType::List(Box::new(InferredType::Number)),
        &InferredType::List(Box::new(InferredType::Number)),
    ));
    assert!(!v.types_compatible(
        &InferredType::List(Box::new(InferredType::Number)),
        &InferredType::List(Box::new(InferredType::Bool)),
    ));
}

#[test]
fn test_ffi_prefix_must_match_whole_head() {
    let validator = FFIRestrictionsValidator::new();
    let benign = LispExpr::List(vec![sym("rustic"), num("1")]);
    assert!(validator.validate(&benign).is_ok());
    let ffi = LispExpr::List(vec![sym("ffi-open"), num("1")]);
    assert!(validator.validate(&ffi).is_err());
}
