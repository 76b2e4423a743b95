use std::collections::VecDeque;

use muxt_math::lexer::{analyze, LexicalExpression, LexicalSequence, LexicalSymbol};
use muxt_math::parser::{to_operator, AstFactory, Node, Operator, ParseError, AST, MAX_NESTING};

fn number(value: i64) -> Box<Node> {
    Box::new(Node::Number(value))
}

fn variable(name: char) -> Box<Node> {
    Box::new(Node::Variable(name))
}

fn binary(left: Box<Node>, operator: Operator, right: Box<Node>) -> Box<Node> {
    Box::new(Node::Binary { left, operator, right })
}

fn factory(text: &str) -> AstFactory {
    let tokens: LexicalSequence = analyze(String::from(text)).unwrap();
    tokens.into()
}

fn parse(text: &str) -> Result<AST, ParseError> {
    factory(text).parse()
}

fn head(text: &str) -> Node {
    parse(text).unwrap().head
}

#[test]
fn a_number_and_a_variable_are_leaves() {
    assert_eq!(parse("42"), Ok(AST { head: Node::Number(42), vars: 0, equals: false }));
    assert_eq!(parse("x"), Ok(AST { head: Node::Variable('x'), vars: 1, equals: false }));
}

#[test]
fn operators_of_one_level_associate_to_the_left() {
    assert_eq!(
        head("8 - 3 - 2"),
        *binary(binary(number(8), Operator::Subtract, number(3)), Operator::Subtract, number(2))
    );
    assert_eq!(
        head("8 / 4 * 2"),
        *binary(binary(number(8), Operator::Divide, number(4)), Operator::Multiply, number(2))
    );
    assert_eq!(
        head("2 ^ 3 ^ 2"),
        *binary(binary(number(2), Operator::Power, number(3)), Operator::Power, number(2))
    );
}

#[test]
fn tighter_operators_bind_first() {
    assert_eq!(
        head("1 + 2 * 3 ^ 4"),
        *binary(
            number(1),
            Operator::Add,
            binary(number(2), Operator::Multiply, binary(number(3), Operator::Power, number(4))),
        )
    );
    assert_eq!(
        head("1 ^ 2 * 3 + 4"),
        *binary(
            binary(binary(number(1), Operator::Power, number(2)), Operator::Multiply, number(3)),
            Operator::Add,
            number(4),
        )
    );
}

#[test]
fn parentheses_group() {
    assert_eq!(
        head("(1 + 2) * 3"),
        *binary(binary(number(1), Operator::Add, number(2)), Operator::Multiply, number(3))
    );
    assert_eq!(head("((7))"), Node::Number(7));
    assert_eq!(
        head("2 * (3 + (4 - x))"),
        *binary(
            number(2),
            Operator::Multiply,
            binary(number(3), Operator::Add, binary(number(4), Operator::Subtract, variable('x'))),
        )
    );
}

#[test]
fn an_empty_group_is_zero() {
    assert_eq!(head("()"), Node::Number(0));
    assert_eq!(head("3 + ()"), *binary(number(3), Operator::Add, number(0)));
    assert_eq!(head("(()) * 2"), *binary(number(0), Operator::Multiply, number(2)));
}

#[test]
fn an_equals_sign_splits_an_equation() {
    assert_eq!(
        parse("3 * x = 6"),
        Ok(AST {
            head: Node::Equation {
                left: binary(number(3), Operator::Multiply, variable('x')),
                right: number(6),
            },
            vars: 1,
            equals: true,
        })
    );
}

#[test]
fn variables_are_counted_by_occurrence() {
    assert_eq!(parse("x + x * (y - x)").unwrap().vars, 4);
    assert_eq!(parse("(a) = (b + (c))").unwrap().vars, 3);
    assert_eq!(parse("1 + 2").unwrap().vars, 0);
}

#[test]
fn running_out_of_tokens_is_an_unexpected_end() {
    assert_eq!(parse(""), Err(ParseError::UnexpectedEnd));
    assert_eq!(parse("3 +"), Err(ParseError::UnexpectedEnd));
    assert_eq!(parse("3 * (2 -)"), Err(ParseError::UnexpectedEnd));
    assert_eq!(parse("x ="), Err(ParseError::UnexpectedEnd));
    assert_eq!(parse("2 ^"), Err(ParseError::UnexpectedEnd));
}

#[test]
fn unbalanced_parentheses_are_mismatched() {
    assert_eq!(parse("(1 + 2"), Err(ParseError::MismatchedParens));
    assert_eq!(parse("((1 + 2)"), Err(ParseError::MismatchedParens));
    assert_eq!(parse("1 + 2)"), Err(ParseError::MismatchedParens));
    assert_eq!(parse("(1))"), Err(ParseError::MismatchedParens));
    assert_eq!(parse("3 * (2 + (4 * 5)"), Err(ParseError::MismatchedParens));
}

#[test]
fn an_operator_where_an_operand_is_due_is_named() {
    assert_eq!(
        parse("* 3"),
        Err(ParseError::ExpectedNumberOrVariable { found: LexicalSymbol::Mult })
    );
    assert_eq!(
        parse("3 + + 4"),
        Err(ParseError::ExpectedNumberOrVariable { found: LexicalSymbol::Plus })
    );
    assert_eq!(
        parse("3 + )"),
        Err(ParseError::ExpectedNumberOrVariable { found: LexicalSymbol::CloseParen })
    );
    assert_eq!(
        parse("= 3"),
        Err(ParseError::ExpectedNumberOrVariable { found: LexicalSymbol::Equal })
    );
}

#[test]
fn a_token_where_an_operator_is_due_is_named() {
    assert_eq!(
        parse("3 4"),
        Err(ParseError::UnexpectedToken { found: LexicalSymbol::Number(4) })
    );
    assert_eq!(
        parse("2 x"),
        Err(ParseError::UnexpectedToken { found: LexicalSymbol::Variable('x') })
    );
    assert_eq!(
        parse("3 (4)"),
        Err(ParseError::UnexpectedToken { found: LexicalSymbol::OpenParen })
    );
    assert_eq!(
        parse("(1 2)"),
        Err(ParseError::UnexpectedToken { found: LexicalSymbol::Number(2) })
    );
}

#[test]
fn a_second_equals_sign_is_rejected() {
    assert_eq!(
        parse("1 = 2 = 3"),
        Err(ParseError::UnexpectedToken { found: LexicalSymbol::Equal })
    );
    assert_eq!(
        parse("(x = 2) + 1"),
        Err(ParseError::UnexpectedToken { found: LexicalSymbol::Equal })
    );
}

#[test]
fn nesting_is_bounded() {
    let deepest = format!("{}1{}", "(".repeat(MAX_NESTING), ")".repeat(MAX_NESTING));
    assert_eq!(parse(&deepest), Ok(AST { head: Node::Number(1), vars: 0, equals: false }));
    let too_deep = format!("{}1{}", "(".repeat(MAX_NESTING + 1), ")".repeat(MAX_NESTING + 1));
    assert_eq!(parse(&too_deep), Err(ParseError::NestingTooDeep));
}

#[test]
fn a_term_stops_before_what_is_no_part_of_it() {
    let mut parser = factory("1 + 2 = 3");
    assert_eq!(
        parser.parse_term(),
        Ok(*binary(number(1), Operator::Add, number(2)))
    );
    assert_eq!(parser.parse_term(), Err(ParseError::ExpectedNumberOrVariable {
        found: LexicalSymbol::Equal
    }));
    let mut parser = factory("1 + 2 = 3");
    assert_eq!(
        parser.parse_assignment(),
        Ok(Node::Equation {
            left: binary(number(1), Operator::Add, number(2)),
            right: number(3),
        })
    );
    assert_eq!(parser.parse_assignment(), Err(ParseError::UnexpectedEnd));
}

#[test]
fn a_failed_production_moves_nothing() {
    let mut parser = factory("x + y 2 *");
    assert_eq!(
        parser.parse(),
        Err(ParseError::UnexpectedToken { found: LexicalSymbol::Number(2) })
    );
    assert_eq!(
        parser.parse_term(),
        Ok(*binary(variable('x'), Operator::Add, variable('y')))
    );
    assert_eq!(parser.parse_term(), Err(ParseError::UnexpectedEnd));
    assert_eq!(
        parser.parse_term(),
        Err(ParseError::UnexpectedEnd)
    );
}

#[test]
fn tokens_built_by_hand_parse_too() {
    let mut tokens: VecDeque<LexicalExpression> = VecDeque::new();
    tokens.push_back(LexicalExpression { symbol: LexicalSymbol::Number(-5), pos: 0 });
    tokens.push_back(LexicalExpression { symbol: LexicalSymbol::Pow, pos: 0 });
    tokens.push_back(LexicalExpression { symbol: LexicalSymbol::Variable('k'), pos: 0 });
    let mut parser = AstFactory::from(LexicalSequence(tokens));
    assert_eq!(
        parser.parse(),
        Ok(AST {
            head: *binary(number(-5), Operator::Power, variable('k')),
            vars: 1,
            equals: false,
        })
    );
}

#[test]
fn symbols_map_to_operators() {
    assert_eq!(to_operator(LexicalSymbol::Plus), Some(Operator::Add));
    assert_eq!(to_operator(LexicalSymbol::Minus), Some(Operator::Subtract));
    assert_eq!(to_operator(LexicalSymbol::Mult), Some(Operator::Multiply));
    assert_eq!(to_operator(LexicalSymbol::Div), Some(Operator::Divide));
    assert_eq!(to_operator(LexicalSymbol::Pow), Some(Operator::Power));
    assert_eq!(to_operator(LexicalSymbol::Equal), None);
    assert_eq!(to_operator(LexicalSymbol::OpenParen), None);
    assert_eq!(to_operator(LexicalSymbol::Number(1)), None);
}
