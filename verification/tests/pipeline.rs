use muxt_math::interpreter::{Interpreter, SolveError};
use muxt_math::lexer::{analyze, LexicalSequence};
use muxt_math::parser::{AstFactory, Node, Operator, AST};

fn number(value: i64) -> Box<Node> {
    Box::new(Node::Number(value))
}

fn variable(name: char) -> Box<Node> {
    Box::new(Node::Variable(name))
}

fn binary(left: Box<Node>, operator: Operator, right: Box<Node>) -> Box<Node> {
    Box::new(Node::Binary { left, operator, right })
}

fn parsed(text: &str) -> AST {
    let tokens: LexicalSequence = analyze(String::from(text)).unwrap();
    let mut parser: AstFactory = tokens.into();
    parser.parse().unwrap()
}

#[test]
fn lexer() {
    let input = String::from("x + 32+5/ 3 = ) / (");
    let result: LexicalSequence = analyze(input).unwrap();

    println!("{}", result.to_string());

    assert_eq!(result.to_string(), "Var(x) + 32 + 5 / 3 = ) / ( ".to_owned());
}

#[test]
fn ast() {
    let input = String::from("3 ^ 2 + 5 * (4 + x) * 3");
    let result: LexicalSequence = analyze(input).unwrap();

    println!("Lexer output: {:#?}", result);

    let mut parser: AstFactory = result.into();

    let tree = parser.parse_term();
    println!("{:#?}", tree);

    let expected = binary(
        binary(number(3), Operator::Power, number(2)),
        Operator::Add,
        binary(
            binary(
                number(5),
                Operator::Multiply,
                binary(number(4), Operator::Add, variable('x')),
            ),
            Operator::Multiply,
            number(3),
        ),
    );
    assert_eq!(tree, Ok(*expected));
}

#[test]
fn simplify() {
    let ast: AST = parsed("4 * 2 / (3 + x) = (4 * 3) / 2");
    println!("{:#?}", ast.clone());

    let mut interpreter = Interpreter { ast };
    let output = interpreter.simplify();
    println!("Output: {:#?}", output);

    let expected = Node::Equation {
        left: binary(
            number(8),
            Operator::Divide,
            binary(number(3), Operator::Add, variable('x')),
        ),
        right: number(6),
    };
    assert_eq!(output, expected);
    assert_eq!(interpreter.ast.head, expected);
    assert_eq!(interpreter.ast.vars, 1);
    assert!(interpreter.ast.equals);
}

#[test]
fn solve_for_x() {
    let ast: AST = parsed("3 * x = y / 3");
    println!("{:?}", ast.head.clone());

    let mut interpreter = Interpreter { ast };
    let solved = interpreter.solve_for('x').unwrap();
    let expected = Node::Equation {
        left: variable('x'),
        right: binary(
            binary(variable('y'), Operator::Divide, number(3)),
            Operator::Divide,
            number(3),
        ),
    };
    assert_eq!(solved, expected);
    assert_eq!(interpreter.ast.head, expected);

    interpreter.simplify();
    println!("Output for x: {:?}", interpreter.ast.head);
    assert_eq!(interpreter.ast.head, expected);
}

#[test]
fn solve_single_step_with_numbers() {
    let mut interpreter = Interpreter { ast: parsed("3 * x = 6") };
    interpreter.solve_for('x').unwrap();
    let simplified = interpreter.simplify();
    let expected = Node::Equation { left: variable('x'), right: number(2) };
    assert_eq!(simplified, expected);
    assert_eq!(interpreter.ast.head, expected);
}

#[test]
fn solve_takes_the_side_that_holds_the_variable() {
    let mut interpreter = Interpreter { ast: parsed("10 = x + 4") };
    let solved = interpreter.solve_for('x').unwrap();
    assert_eq!(
        solved,
        Node::Equation {
            left: variable('x'),
            right: binary(number(10), Operator::Subtract, number(4)),
        }
    );
}

#[test]
fn solve_with_the_variable_on_the_right_of_the_operator() {
    let mut interpreter = Interpreter { ast: parsed("y / x = 6") };
    let solved = interpreter.solve_for('x').unwrap();
    assert_eq!(
        solved,
        Node::Equation {
            left: variable('x'),
            right: binary(number(6), Operator::Multiply, variable('y')),
        }
    );
}

#[test]
fn solve_rejects_a_bare_expression() {
    let mut interpreter = Interpreter { ast: parsed("3 * x + 1") };
    let before = interpreter.ast.clone();
    assert_eq!(interpreter.solve_for('x'), Err(SolveError::NotAnEquation));
    assert_eq!(interpreter.ast, before);
}

#[test]
fn solve_rejects_a_buried_variable() {
    let mut interpreter = Interpreter { ast: parsed("2 * x + 3 = y") };
    let before = interpreter.ast.clone();
    assert_eq!(
        interpreter.solve_for('x'),
        Err(SolveError::OnlyVariablesCanBeRearranged)
    );
    assert_eq!(interpreter.ast, before);
}

#[test]
fn solve_rejects_a_side_that_is_no_binary_node() {
    let mut interpreter = Interpreter { ast: parsed("x = 3 + 4") };
    assert_eq!(interpreter.solve_for('x'), Err(SolveError::UnsupportedShape));
    let mut interpreter = Interpreter { ast: parsed("3 = 4") };
    assert_eq!(interpreter.solve_for('x'), Err(SolveError::UnsupportedShape));
}

#[test]
fn solve_rejects_a_power() {
    let mut interpreter = Interpreter { ast: parsed("x ^ 2 = 9") };
    assert_eq!(interpreter.solve_for('x'), Err(SolveError::NoInverse));
    let mut interpreter = Interpreter { ast: parsed("(x + 1) ^ 2 = 9") };
    assert_eq!(
        interpreter.solve_for('x'),
        Err(SolveError::OnlyVariablesCanBeRearranged)
    );
}

#[test]
fn rearrange_terms_uses_the_inverse_operator() {
    let moved = Interpreter::rearrange_terms(
        Node::Variable('x'),
        Operator::Subtract,
        Node::Number(4),
        Node::Number(10),
        'x',
    );
    assert_eq!(
        moved,
        Ok(Node::Equation {
            left: variable('x'),
            right: binary(number(10), Operator::Add, number(4)),
        })
    );
    let other = Interpreter::rearrange_terms(
        Node::Variable('y'),
        Operator::Subtract,
        Node::Number(4),
        Node::Number(10),
        'x',
    );
    assert_eq!(other, Err(SolveError::OnlyVariablesCanBeRearranged));
}

#[test]
fn find_var_looks_through_binary_nodes() {
    let tree = parsed("3 * (y + (2 - x))").head;
    assert!(Interpreter::find_var(&tree, 'x'));
    assert!(Interpreter::find_var(&tree, 'y'));
    assert!(!Interpreter::find_var(&tree, 'z'));
    assert!(!Interpreter::find_var(&Node::Number(3), 'x'));
    let equation = parsed("x = 1").head;
    assert!(!Interpreter::find_var(&equation, 'x'));
}

#[test]
fn precedence_of_multiplication_over_addition() {
    let interpreter = Interpreter { ast: parsed("3 + 5 * 4") };
    assert_eq!(interpreter.evaluate(), Ok(23));
}

#[test]
fn exponent_binds_tighter_than_multiplication() {
    let interpreter = Interpreter { ast: parsed("3 ^ 2 + 5 * (4 + 5) * 3") };
    assert_eq!(interpreter.evaluate(), Ok(144));
}

#[test]
fn identity_rules() {
    let mut interpreter = Interpreter { ast: parsed("x + 0") };
    assert_eq!(interpreter.simplify(), Node::Variable('x'));
    let mut interpreter = Interpreter { ast: parsed("x * 0") };
    assert_eq!(interpreter.simplify(), Node::Number(0));
    assert_eq!(Interpreter::simplify_rec(parsed("0 + x").head), Node::Variable('x'));
    assert_eq!(Interpreter::simplify_rec(parsed("x - 0").head), Node::Variable('x'));
    assert_eq!(Interpreter::simplify_rec(parsed("0 - x").head), Node::Variable('x'));
    assert_eq!(Interpreter::simplify_rec(parsed("x * 1").head), Node::Variable('x'));
    assert_eq!(Interpreter::simplify_rec(parsed("1 * x").head), Node::Variable('x'));
    assert_eq!(Interpreter::simplify_rec(parsed("0 * x").head), Node::Number(0));
}

#[test]
fn like_terms_combine() {
    let mut interpreter = Interpreter { ast: parsed("x + x") };
    assert_eq!(
        interpreter.simplify(),
        *binary(number(2), Operator::Multiply, variable('x'))
    );
    assert_eq!(
        Interpreter::simplify_rec(parsed("x + y").head),
        *binary(variable('x'), Operator::Add, variable('y'))
    );
    assert_eq!(
        Interpreter::simplify_rec(parsed("x - x").head),
        *binary(variable('x'), Operator::Subtract, variable('x'))
    );
}

#[test]
fn simplification_is_idempotent_on_examples() {
    for text in [
        "4 * 2 / (3 + x) = (4 * 3) / 2",
        "x + x",
        "(x + 0) + (x * 1)",
        "0 - (1 / 0)",
        "1 * (2 ^ 70) + y",
        "((x))",
    ] {
        let once = Interpreter::simplify_rec(parsed(text).head);
        let twice = Interpreter::simplify_rec(once.clone());
        assert_eq!(once, twice);
    }
}

#[test]
fn simplification_folds_what_evaluates() {
    let tree = parsed("3 ^ 2 + 5 * (4 + 5) * 3").head;
    assert_eq!(tree.evaluate(), Ok(144));
    assert_eq!(Interpreter::simplify_rec(tree), Node::Number(144));
}

#[test]
fn simplification_keeps_what_has_no_value() {
    assert_eq!(
        Interpreter::simplify_rec(parsed("5 / 0").head),
        *binary(number(5), Operator::Divide, number(0))
    );
    assert_eq!(
        Interpreter::simplify_rec(parsed("9223372036854775807 + 1").head),
        *binary(number(i64::MAX), Operator::Add, number(1))
    );
}
