use lispkit::ast::LispExpr;
use lispkit::visualizer::{escape_dot, escape_html, DotVisualizer, HtmlVisualizer};

fn num(s: &str) -> LispExpr {
    LispExpr::Number(s.to_string())
}

fn sym(s: &str) -> LispExpr {
    LispExpr::Symbol(s.to_string())
}

#[test]
fn test_dot_visualizer_number() {
    let mut viz = DotVisualizer::new();
    let exprs = vec![num("42")];
    let output = viz.visualize(&exprs);

    assert!(output.contains("digraph AST"));
    assert!(output.contains("42"));
    assert!(output.contains("lightblue"));
}

#[test]
fn test_dot_visualizer_symbol() {
    let mut viz = DotVisualizer::new();
    let exprs = vec![sym("+")];
    let output = viz.visualize(&exprs);

    assert!(output.contains("+"));
    assert!(output.contains("lightgreen"));
}

#[test]
fn test_dot_visualizer_list() {
    let mut viz = DotVisualizer::new();
    let exprs = vec![LispExpr::List(vec![sym("+"), num("1"), num("2")])];
    let output = viz.visualize(&exprs);

    assert!(output.contains("List"));
    assert!(output.contains("+"));
    assert!(output.contains("1"));
    assert!(output.contains("2"));
}

#[test]
fn test_html_visualizer_number() {
    let viz = HtmlVisualizer::new();
    let exprs = vec![num("42")];
    let output = viz.visualize(&exprs);

    assert!(output.contains("<!DOCTYPE html>"));
    assert!(output.contains("ast-number"));
    assert!(output.contains("42"));
}

#[test]
fn test_html_visualizer_list() {
    let viz = HtmlVisualizer::new();
    let exprs = vec![LispExpr::List(vec![sym("+"), num("1")])];
    let output = viz.visualize(&exprs);

    assert!(output.contains("ast-list"));
    assert!(output.contains("ast-symbol"));
    assert!(output.contains("+"));
}

#[test]
fn test_escape_dot() {
    assert_eq!(escape_dot("hello\"world"), "hello\\\"world");
    assert_eq!(escape_dot("line1\nline2"), "line1\\nline2");
}

#[test]
fn test_escape_html() {
    assert_eq!(escape_html("<div>"), "&lt;div&gt;");
    assert_eq!(escape_html("a & b"), "a &amp; b");
}

#[test]
fn test_dot_visualizer_macro() {
    let mut viz = DotVisualizer::new();
    let exprs = vec![LispExpr::Macro {
        name: "double".to_string(),
        parameters: vec!["x".to_string()],
        body: Box::new(LispExpr::List(vec![sym("*"), sym("x"), num("2")])),
    }];
    let output = viz.visualize(&exprs);

    assert!(output.contains("Macro: double"));
    assert!(output.contains("Parameters"));
    assert!(output.contains("body"));
}

#[test]
fn test_html_visualizer_macro() {
    let viz = HtmlVisualizer::new();
    let exprs = vec![LispExpr::Macro {
        name: "double".to_string(),
        parameters: vec!["x".to_string()],
        body: Box::new(num("2")),
    }];
    let output = viz.visualize(&exprs);

    assert!(output.contains("ast-macro"));
    assert!(output.contains("double"));
    assert!(output.contains("Parameters"));
}

#[test]
fn test_dot_node_numbering() {
    let mut viz = DotVisualizer::new();
    let first = viz.next_node_id();
    let second = viz.next_node_id();
    assert_eq!(first, "node0");
    assert_eq!(second, "node1");
    let output = viz.visualize(&vec![num("7")]);
    assert!(output.contains("node2"));
}
