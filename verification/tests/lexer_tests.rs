use kaleido::error::ParseError;
use kaleido::lexer::{Token, Tokenizer};

#[test]
fn lexer_eof() {
    let mut tokenizer = Tokenizer::new("");
    let expected = Token::Eof;
    let actual = tokenizer.tokenize().unwrap();
    assert_eq!(expected, actual)
}

#[test]
fn numeric() {
    let mut tokenizer = Tokenizer::new("1.45");
    let expected = Token::Number(String::from("1.45"));
    let actual = tokenizer.tokenize().unwrap();
    assert_eq!(expected, actual);
    match tokenizer.tokenize().unwrap() {
        Token::Eof => {}
        other => panic!("expected end of input, got {:?}", other),
    }
    let mut tokenizer = Tokenizer::new("1.45");
    match tokenizer.tokenize().unwrap() {
        Token::Number(text) => assert_eq!(text.parse::<f64>().unwrap(), 1.45),
        other => panic!("expected a number, got {:?}", other),
    }
}

#[test]
fn identifier() {
    let mut tokenizer = Tokenizer::new("ident");
    let expected = Token::Identifier(String::from("ident"));
    let actual = tokenizer.tokenize().unwrap();
    assert_eq!(actual, expected)
}

#[test]
fn reserved_define() {
    let mut tokenizer = Tokenizer::new("def");
    let expected = Token::Def;
    let actual = tokenizer.tokenize().unwrap();
    assert_eq!(actual, expected)
}

#[test]
fn reserved_extern() {
    let mut tokenizer = Tokenizer::new("extern");
    let expected = Token::Extern;
    let actual = tokenizer.tokenize().unwrap();
    assert_eq!(actual, expected)
}

#[test]
fn other() {
    let mut tokenizer = Tokenizer::new("{}");
    let expected = Token::Other('{');
    let actual = tokenizer.tokenize().unwrap();
    assert_eq!(actual, expected);
    let expected = Token::Other('}');
    let actual = tokenizer.tokenize().unwrap();
    assert_eq!(actual, expected)
}

#[test]
fn multi_tokens() {
    let mut tokenizer = Tokenizer::new("{} test");
    let expected = Token::Other('{');
    let actual = tokenizer.tokenize().unwrap();
    assert_eq!(actual, expected);
    let expected = Token::Other('}');
    let actual = tokenizer.tokenize().unwrap();
    assert_eq!(actual, expected);
    let expected = Token::Identifier(String::from("test"));
    let actual = tokenizer.tokenize().unwrap();
    assert_eq!(actual, expected);
    let expected = Token::Eof;
    let actual = tokenizer.tokenize().unwrap();
    assert_eq!(actual, expected);
}

#[test]
fn multi_tokens_no_whitespace() {
    let mut tokenizer = Tokenizer::new("x+y");
    let expected_x = Token::Identifier(String::from("x"));
    let actual_x = tokenizer.tokenize().unwrap();
    assert_eq!(actual_x, expected_x);
    let expected_plus = Token::Other('+');
    let actual_plus = tokenizer.tokenize().unwrap();
    assert_eq!(actual_plus, expected_plus);
    let expected_y = Token::Identifier(String::from("y"));
    let actual_y = tokenizer.tokenize().unwrap();
    assert_eq!(actual_y, expected_y);
}

#[test]
fn tokenizer_eof() {
    let mut tokenizer = Tokenizer::new("");
    let expected = Token::Eof;
    let actual = tokenizer.tokenize().unwrap();
    assert_eq!(expected, actual)
}

#[test]
fn fails() {
    let mut tokenizer = Tokenizer::new("1.2.3");
    assert_eq!(tokenizer.tokenize(), Err(ParseError::MalformedNumber))
}

#[test]
fn blank_input_yields_only_eof() {
    let mut tokenizer = Tokenizer::new("  \t\r\n  # a comment\n   # another\n\n ");
    let expected = Token::Eof;
    let actual = tokenizer.tokenize().unwrap();
    assert_eq!(expected, actual);
    let actual = tokenizer.tokenize().unwrap();
    assert_eq!(Token::Eof, actual)
}

#[test]
fn comment_does_not_produce_a_token() {
    let mut tokenizer = Tokenizer::new("# leading note\nvalue # trailing note\n42");
    assert_eq!(
        tokenizer.tokenize().unwrap(),
        Token::Identifier(String::from("value"))
    );
    assert_eq!(tokenizer.tokenize().unwrap(), Token::Number(String::from("42")));
    assert_eq!(tokenizer.tokenize().unwrap(), Token::Eof)
}

#[test]
fn number_with_trailing_dot() {
    let mut tokenizer = Tokenizer::new("1.");
    assert_eq!(tokenizer.tokenize().unwrap(), Token::Number(String::from("1.")));
    assert_eq!(tokenizer.tokenize().unwrap(), Token::Eof)
}

#[test]
fn leading_dot_is_a_symbol() {
    let mut tokenizer = Tokenizer::new(".5");
    assert_eq!(tokenizer.tokenize().unwrap(), Token::Other('.'));
    assert_eq!(tokenizer.tokenize().unwrap(), Token::Number(String::from("5")));
}

#[test]
fn malformed_literal_position_is_its_start() {
    let mut tokenizer = Tokenizer::new("  1.2.3");
    assert_eq!(tokenizer.tokenize(), Err(ParseError::MalformedNumber));
    assert_eq!(tokenizer.position(), 2);
}

#[test]
fn keyword_prefix_is_identifier() {
    let mut tokenizer = Tokenizer::new("define externs");
    assert_eq!(
        tokenizer.tokenize().unwrap(),
        Token::Identifier(String::from("define"))
    );
    assert_eq!(
        tokenizer.tokenize().unwrap(),
        Token::Identifier(String::from("externs"))
    );
}
