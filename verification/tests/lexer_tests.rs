use lispkit::lexer::{tokenize, Token};

fn num(s: &str) -> Token {
    Token::Number(s.to_string())
}

#[test]
fn test_basic_tokens() {
    let input = "(+ 1 2)";
    let tokens = tokenize(input).unwrap();
    assert_eq!(
        tokens,
        vec![
            Token::LeftParen,
            Token::Symbol("+".to_string()),
            num("1"),
            num("2"),
            Token::RightParen,
        ]
    );
}

#[test]
fn test_string_tokens() {
    let input = r#"("hello world" "with\nnewline")"#;
    let tokens = tokenize(input).unwrap();
    assert_eq!(
        tokens,
        vec![
            Token::LeftParen,
            Token::String("hello world".to_string()),
            Token::String("with\nnewline".to_string()),
            Token::RightParen,
        ]
    );
}

#[test]
fn test_boolean_and_nil() {
    let input = "(true false nil)";
    let tokens = tokenize(input).unwrap();
    assert_eq!(
        tokens,
        vec![
            Token::LeftParen,
            Token::Bool(true),
            Token::Bool(false),
            Token::Nil,
            Token::RightParen,
        ]
    );
}

#[test]
fn test_quote_tokens() {
    let input = "'(+ 1 2)";
    let tokens = tokenize(input).unwrap();
    assert_eq!(
        tokens,
        vec![
            Token::Quote,
            Token::LeftParen,
            Token::Symbol("+".to_string()),
            num("1"),
            num("2"),
            Token::RightParen,
        ]
    );
}

#[test]
fn test_quasiquote_tokens() {
    let input = "`(+ ,x ,(* 2 3))";
    let tokens = tokenize(input).unwrap();
    assert_eq!(
        tokens,
        vec![
            Token::Quasiquote,
            Token::LeftParen,
            Token::Symbol("+".to_string()),
            Token::Unquote,
            Token::Symbol("x".to_string()),
            Token::Unquote,
            Token::LeftParen,
            Token::Symbol("*".to_string()),
            num("2"),
            num("3"),
            Token::RightParen,
            Token::RightParen,
        ]
    );
}

#[test]
fn test_splice_tokens() {
    let input = "`(list ,@items)";
    let tokens = tokenize(input).unwrap();
    assert_eq!(
        tokens,
        vec![
            Token::Quasiquote,
            Token::LeftParen,
            Token::Symbol("list".to_string()),
            Token::Splice,
            Token::Symbol("items".to_string()),
            Token::RightParen,
        ]
    );
}

#[test]
fn test_mixed_quote_tokens() {
    let input = "'x `(+ ,a ,@b)";
    let tokens = tokenize(input).unwrap();
    assert_eq!(
        tokens,
        vec![
            Token::Quote,
            Token::Symbol("x".to_string()),
            Token::Quasiquote,
            Token::LeftParen,
            Token::Symbol("+".to_string()),
            Token::Unquote,
            Token::Symbol("a".to_string()),
            Token::Splice,
            Token::Symbol("b".to_string()),
            Token::RightParen,
        ]
    );
}

#[test]
fn test_number_normalization() {
    assert_eq!(tokenize("42.5").unwrap(), vec![num("42.5")]);
    assert_eq!(tokenize("-7").unwrap(), vec![num("-7")]);
    assert_eq!(tokenize("+7").unwrap(), vec![num("7")]);
    assert_eq!(tokenize("007").unwrap(), vec![num("7")]);
    assert_eq!(tokenize("5.").unwrap(), vec![num("5")]);
    assert_eq!(tokenize("0.50").unwrap(), vec![num("0.50")]);
    assert_eq!(tokenize("-").unwrap(), vec![Token::Symbol("-".to_string())]);
    assert_eq!(tokenize("+").unwrap(), vec![Token::Symbol("+".to_string())]);
}

#[test]
fn test_comments_are_skipped() {
    let tokens = tokenize("1 ; a comment\n2").unwrap();
    assert_eq!(tokens, vec![num("1"), num("2")]);
}

#[test]
fn test_invalid_number_reports_position() {
    let err = tokenize("  +.").unwrap_err();
    assert!(err.contains("Invalid number at position 2"));
}
