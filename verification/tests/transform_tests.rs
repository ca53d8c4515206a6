use lispkit::ast::LispExpr;
use lispkit::transform::{ASTTransform, EchoTransform, TransformError, TransformRegistry};

fn num(s: &str) -> LispExpr {
    LispExpr::Number(s.to_string())
}

#[test]
fn test_transform_error_display() {
    let err1 = TransformError::TransformFailed("test error".to_string());
    assert_eq!(err1.render(), "Transform failed: test error");

    let err2 = TransformError::InvalidAst("bad structure".to_string());
    assert_eq!(err2.render(), "Invalid AST: bad structure");

    let err3 = TransformError::PluginNotFound("missing".to_string());
    assert_eq!(err3.render(), "Plugin not found: missing");
}

#[test]
fn test_registry_new() {
    let registry: TransformRegistry<EchoTransform> = TransformRegistry::new();
    assert_eq!(registry.count(), 0);
}

#[test]
fn test_registry_register() {
    let mut registry: TransformRegistry<EchoTransform> = TransformRegistry::new();
    registry.register(EchoTransform::new());
    assert_eq!(registry.count(), 1);
    assert_eq!(registry.transform_names(), vec!["echo"]);
}

#[test]
fn test_echo_transform_name() {
    let transform = EchoTransform::new();
    assert_eq!(transform.name(), "echo");
}

#[test]
fn test_echo_transform_simple() {
    let mut transform = EchoTransform::new();
    let mut ast = num("42");

    let result = transform.transform(&mut ast);
    assert!(result.is_ok());

    let output = transform.get_output();
    assert!(output.contains("Number(42"));
}

#[test]
fn test_echo_transform_list() {
    let mut transform = EchoTransform::new();
    let mut ast = LispExpr::List(vec![
        LispExpr::Symbol("+".to_string()),
        num("1"),
        num("2"),
    ]);

    let result = transform.transform(&mut ast);
    assert!(result.is_ok());

    let output = transform.get_output();
    assert!(output.contains("List["));
    assert!(output.contains("Symbol(+)"));
    assert!(output.contains("Number(1"));
    assert!(output.contains("Number(2"));
}

#[test]
fn test_echo_transform_does_not_modify_ast() {
    let mut transform = EchoTransform::new();
    let original = num("42");
    let mut ast = original.clone();

    transform.transform(&mut ast).unwrap();

    assert_eq!(ast, original);
}

#[test]
fn test_registry_apply_all() {
    let mut registry: TransformRegistry<EchoTransform> = TransformRegistry::new();
    registry.register(EchoTransform::new());

    let mut ast = num("42");
    let result = registry.apply_all(&mut ast);

    assert!(result.is_ok());
    assert_eq!(ast, num("42"));
}

#[test]
fn test_registry_multiple_transforms() {
    let mut registry: TransformRegistry<EchoTransform> = TransformRegistry::new();
    registry.register(EchoTransform::new());
    registry.register(EchoTransform::new());

    assert_eq!(registry.count(), 2);
    assert_eq!(registry.transform_names(), vec!["echo", "echo"]);

    let mut ast = LispExpr::Symbol("test".to_string());
    let result = registry.apply_all(&mut ast);
    assert!(result.is_ok());
}

struct DoubleNumberTransform;

impl ASTTransform for DoubleNumberTransform {
    fn name(&self) -> &str {
        "double"
    }

    fn transform(&mut self, ast: &mut LispExpr) -> Result<(), TransformError> {
        match ast {
            LispExpr::Number(n) => {
                let value: f64 = n.parse().unwrap();
                *n = format!("{}", value * 2.0);
                Ok(())
            }
            LispExpr::List(items) => {
                for item in items.iter_mut() {
                    self.transform(item)?;
                }
                Ok(())
            }
            _ => Ok(()),
        }
    }
}

#[test]
fn test_custom_transform() {
    let mut transform = DoubleNumberTransform;
    let mut ast = num("21");

    transform.transform(&mut ast).unwrap();

    match ast {
        LispExpr::Number(n) => assert_eq!(n, "42"),
        _ => panic!("Expected Number"),
    }
}

#[test]
fn test_custom_transform_recursive() {
    let mut transform = DoubleNumberTransform;
    let mut ast = LispExpr::List(vec![
        LispExpr::Symbol("+".to_string()),
        num("1"),
        num("2"),
    ]);

    transform.transform(&mut ast).unwrap();

    match ast {
        LispExpr::List(items) => {
            assert_eq!(items.len(), 3);
            match &items[1] {
                LispExpr::Number(n) => assert_eq!(n, "2"),
                _ => panic!("Expected Number"),
            }
            match &items[2] {
                LispExpr::Number(n) => assert_eq!(n, "4"),
                _ => panic!("Expected Number"),
            }
        }
        _ => panic!("Expected List"),
    }
}

#[test]
fn test_registry_with_custom_transform() {
    let mut registry: TransformRegistry<DoubleNumberTransform> = TransformRegistry::new();
    registry.register(DoubleNumberTransform);

    let mut ast = num("10");
    registry.apply_all(&mut ast).unwrap();

    match ast {
        LispExpr::Number(n) => assert_eq!(n, "20"),
        _ => panic!("Expected Number"),
    }
}
