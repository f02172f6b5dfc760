use kaleido::error::ParseError;
use kaleido::lexer::Token;
use kaleido::parser::{Expression, Operator, Parser, MAX_DEPTH};

fn var(name: &str) -> Expression {
    Expression::VariableExpression(String::from(name))
}

fn num(text: &str) -> Expression {
    Expression::NumberExpression(String::from(text))
}

fn bin(operator: Operator, lhs: Expression, rhs: Expression) -> Expression {
    Expression::BinaryExpression {
        operator,
        lhs: Box::new(lhs),
        rhs: Box::new(rhs),
    }
}

#[test]
fn precedence_mul_binds_tighter() {
    let mut parser = Parser::new(String::from("a+b*c")).unwrap();
    let actual = parser.parse_expression(MAX_DEPTH).unwrap();
    let expected = bin(
        Operator::Plus,
        var("a"),
        bin(Operator::Multiply, var("b"), var("c")),
    );
    assert_eq!(actual, expected)
}

#[test]
fn equal_precedence_is_left_associative() {
    let mut parser = Parser::new(String::from("a+b-c")).unwrap();
    let actual = parser.parse_expression(MAX_DEPTH).unwrap();
    let expected = bin(
        Operator::Minus,
        bin(Operator::Plus, var("a"), var("b")),
        var("c"),
    );
    assert_eq!(actual, expected)
}

#[test]
fn division_binds_tighter_than_subtraction() {
    let mut parser = Parser::new(String::from("a-b/c")).unwrap();
    let actual = parser.parse_expression(MAX_DEPTH).unwrap();
    let expected = bin(
        Operator::Minus,
        var("a"),
        bin(Operator::Divide, var("b"), var("c")),
    );
    assert_eq!(actual, expected)
}

#[test]
fn parentheses_group_the_looser_operator() {
    let mut parser = Parser::new(String::from("(1+2)*3")).unwrap();
    let actual = parser.parse_expression(MAX_DEPTH).unwrap();
    let expected = bin(
        Operator::Multiply,
        bin(Operator::Plus, num("1"), num("2")),
        num("3"),
    );
    assert_eq!(actual, expected)
}

#[test]
fn call_with_two_arguments() {
    let mut parser = Parser::new(String::from("foo(1, 2)")).unwrap();
    let actual = parser.parse_expression(MAX_DEPTH).unwrap();
    let expected = Expression::CallExpression {
        callee: String::from("foo"),
        args: vec![num("1"), num("2")],
    };
    assert_eq!(actual, expected)
}

#[test]
fn call_missing_comma_is_an_error() {
    let mut parser = Parser::new(String::from("foo(1 2)")).unwrap();
    assert_eq!(
        parser.parse_expression(MAX_DEPTH),
        Err(ParseError::ExpectedArgumentSeparatorOrClose)
    )
}

#[test]
fn call_with_no_arguments() {
    let mut parser = Parser::new(String::from("foo()")).unwrap();
    let actual = parser.parse_expression(MAX_DEPTH).unwrap();
    let expected = Expression::CallExpression {
        callee: String::from("foo"),
        args: vec![],
    };
    assert_eq!(actual, expected)
}

#[test]
fn define_a_function() {
    let mut parser = Parser::new(String::from("def foo(a b) a+b")).unwrap();
    let function = parser.parse_definition().unwrap();
    assert_eq!(function.prototype.name, String::from("foo"));
    assert_eq!(
        function.prototype.args,
        vec![String::from("a"), String::from("b")]
    );
    assert_eq!(function.body, bin(Operator::Plus, var("a"), var("b")))
}

#[test]
fn unmatched_parenthesis_is_an_error() {
    let mut parser = Parser::new(String::from("(1+2")).unwrap();
    assert_eq!(
        parser.parse_expression(MAX_DEPTH),
        Err(ParseError::UnmatchedParenthesis)
    )
}

#[test]
fn extern_prototype() {
    let mut parser = Parser::new(String::from("extern sin(x)")).unwrap();
    let prototype = parser.parse_extern().unwrap();
    assert_eq!(prototype.name, String::from("sin"));
    assert_eq!(prototype.args, vec![String::from("x")]);
}

#[test]
fn top_level_expression_is_anonymous() {
    let mut parser = Parser::new(String::from("1+2")).unwrap();
    let function = parser.parse_top_level_expression().unwrap();
    assert_eq!(function.body, bin(Operator::Plus, num("1"), num("2")));
    assert!(function.prototype.args.is_empty());
    let name = function.prototype.get_name();
    assert_eq!(name, String::from("__anon_expr"))
}

#[test]
fn variable_expression() {
    let mut parser = Parser::new(String::from("alone")).unwrap();
    let actual = parser.parse_expression(MAX_DEPTH).unwrap();
    assert_eq!(actual, var("alone"))
}

#[test]
fn number_expression_directly() {
    let mut parser = Parser::new(String::from("3.25")).unwrap();
    let actual = parser.parse_number_expression().unwrap();
    assert_eq!(actual, num("3.25"));
    match actual {
        Expression::NumberExpression(text) => {
            assert_eq!(text.parse::<f64>().unwrap(), 3.25)
        }
        other => panic!("expected a number, got {:?}", other),
    }
}

#[test]
fn operator_mapping() {
    assert_eq!(Parser::operator('+'), Some(Operator::Plus));
    assert_eq!(Parser::operator('-'), Some(Operator::Minus));
    assert_eq!(Parser::operator('*'), Some(Operator::Multiply));
    assert_eq!(Parser::operator('/'), Some(Operator::Divide));
    assert_eq!(Parser::operator('?'), None);
}

#[test]
fn token_precedence_values() {
    let parser = Parser::new(String::from("+")).unwrap();
    assert_eq!(parser.get_token_precedence(), 20);
    let parser = Parser::new(String::from("*")).unwrap();
    assert_eq!(parser.get_token_precedence(), 30);
    let parser = Parser::new(String::from("x")).unwrap();
    assert_eq!(parser.get_token_precedence(), 0);
    let parser = Parser::new(String::from("")).unwrap();
    assert_eq!(parser.get_token_precedence(), 0);
}

#[test]
fn expression_cannot_start_with_an_operator() {
    let mut parser = Parser::new(String::from("+")).unwrap();
    assert_eq!(
        parser.parse_expression(MAX_DEPTH),
        Err(ParseError::UnexpectedToken)
    )
}

#[test]
fn malformed_prototype_is_an_error() {
    let mut parser = Parser::new(String::from("def foo a")).unwrap();
    assert_eq!(parser.parse_definition(), Err(ParseError::MalformedPrototype))
}

#[test]
fn unknown_operator_when_gate_is_bypassed() {
    let mut parser = Parser::new(String::from("x y")).unwrap();
    assert_eq!(
        parser.parse_binary_op_rhs(0, var("q"), MAX_DEPTH),
        Err(ParseError::UnknownOperator)
    )
}

#[test]
fn exhausted_depth_is_an_error() {
    let mut parser = Parser::new(String::from("a")).unwrap();
    assert_eq!(parser.parse_expression(1), Err(ParseError::NestingTooDeep))
}

#[test]
fn malformed_number_fails_the_parse() {
    assert_eq!(
        Parser::new(String::from("1.2.3")).err(),
        Some(ParseError::MalformedNumber)
    )
}

#[test]
fn get_next_token_advances() {
    let mut parser = Parser::new(String::from("def foo")).unwrap();
    let next = parser.get_next_token().unwrap();
    assert_eq!(next, Token::Identifier(String::from("foo")));
    let next = parser.get_next_token().unwrap();
    assert_eq!(next, Token::Eof);
}

#[test]
fn canonical_text_reparses_identically() {
    let mut first = Parser::new(String::from("a+b*c")).unwrap();
    let tree = first.parse_expression(MAX_DEPTH).unwrap();
    let mut second = Parser::new(String::from("(a+(b*c))")).unwrap();
    let reparsed = second.parse_expression(MAX_DEPTH).unwrap();
    assert_eq!(tree, reparsed)
}

#[test]
fn position_reports_where_the_parse_stopped() {
    let mut parser = Parser::new(String::from("(1+2")).unwrap();
    assert_eq!(
        parser.parse_expression(MAX_DEPTH),
        Err(ParseError::UnmatchedParenthesis)
    );
    assert_eq!(parser.position(), 4);
}

#[test]
fn define_with_no_parameters() {
    let mut parser = Parser::new(String::from("def one() 1")).unwrap();
    let function = parser.parse_definition().unwrap();
    assert_eq!(function.prototype.name, String::from("one"));
    assert!(function.prototype.args.is_empty());
    assert_eq!(function.body, num("1"))
}

#[test]
fn comments_are_skipped_inside_expressions() {
    let mut parser = Parser::new(String::from("a + # one operand\nb")).unwrap();
    let actual = parser.parse_expression(MAX_DEPTH).unwrap();
    assert_eq!(actual, bin(Operator::Plus, var("a"), var("b")))
}

#[test]
fn keyword_cannot_start_an_expression() {
    let mut parser = Parser::new(String::from("def")).unwrap();
    assert_eq!(
        parser.parse_expression(MAX_DEPTH),
        Err(ParseError::UnexpectedToken)
    )
}

#[test]
fn rejection_consumes_no_token() {
    let mut parser = Parser::new(String::from("def noop() 0")).unwrap();
    assert_eq!(
        parser.parse_expression(MAX_DEPTH),
        Err(ParseError::UnexpectedToken)
    );
    assert_eq!(
        parser.parse_number_expression(),
        Err(ParseError::UnexpectedToken)
    );
    let function = parser.parse_definition().unwrap();
    assert_eq!(function.prototype.name, String::from("noop"));
    assert_eq!(function.body, num("0"))
}

#[test]
fn nested_calls_round_trip_structure() {
    let mut parser = Parser::new(String::from("f(g(x), y+1)")).unwrap();
    let actual = parser.parse_expression(MAX_DEPTH).unwrap();
    let expected = Expression::CallExpression {
        callee: String::from("f"),
        args: vec![
            Expression::CallExpression {
                callee: String::from("g"),
                args: vec![var("x")],
            },
            bin(Operator::Plus, var("y"), num("1")),
        ],
    };
    assert_eq!(actual, expected)
}
