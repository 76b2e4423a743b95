//! Rewriting of expression trees: simplification and single-step solving.

use vstd::prelude::*;

use crate::expression::{apply, EvalError, Node, Operator};
use crate::parser::AST;

verus! {

/// The rewrite of a binary node whose children `left` and `right` are already
/// simplified. The rules are tried in this order, and the first that applies
/// decides:
///
/// 1. two numbers whose result is representable fold into that result;
/// 2. `x + 0`, `0 + x`, `x - 0`, `0 - x`, `x * 1` and `1 * x` become `x`, and
///    `x * 0` and `0 * x` become `0`;
/// 3. the sum of a variable with itself becomes twice that variable;
/// 4. otherwise the node is rebuilt from the two children.
pub open spec fn rewritten(left: Node, operator: Operator, right: Node) -> Node {
    if left is Number && right is Number && apply(operator, left->Number_0, right->Number_0)
        is Ok {
        Node::Number(apply(operator, left->Number_0, right->Number_0)->Ok_0)
    } else if operator == Operator::Add && right == Node::Number(0) {
        left
    } else if operator == Operator::Add && left == Node::Number(0) {
        right
    } else if operator == Operator::Subtract && right == Node::Number(0) {
        left
    } else if operator == Operator::Subtract && left == Node::Number(0) {
        right
    } else if operator == Operator::Multiply && right == Node::Number(1) {
        left
    } else if operator == Operator::Multiply && left == Node::Number(1) {
        right
    } else if operator == Operator::Multiply && (right == Node::Number(0) || left
        == Node::Number(0)) {
        Node::Number(0)
    } else if operator == Operator::Add && left is Variable && left == right {
        Node::Binary {
            left: Box::new(Node::Number(2)),
            operator: Operator::Multiply,
            right: Box::new(left),
        }
    } else {
        Node::Binary { left: Box::new(left), operator, right: Box::new(right) }
    }
}

/// The simplified form of a tree: leaves stay, the two sides of an equation
/// are simplified independently, and a binary node is rewritten by
/// [`rewritten`] once its children are simplified.
pub open spec fn simplified(node: Node) -> Node
    decreases node,
{
    match node {
        Node::Binary { left, operator, right } => rewritten(
            simplified(*left),
            operator,
            simplified(*right),
        ),
        Node::Equation { left, right } => Node::Equation {
            left: Box::new(simplified(*left)),
            right: Box::new(simplified(*right)),
        },
        _ => node,
    }
}

/// Rewriting two children that simplification leaves alone gives a tree
/// that simplification leaves alone.
proof fn lemma_rewritten_is_fixed(left: Node, operator: Operator, right: Node)
    requires
        simplified(left) == left,
        simplified(right) == right,
    ensures
        simplified(rewritten(left, operator, right)) == rewritten(left, operator, right),
{
    let result = rewritten(left, operator, right);
    let doubled = Node::Binary {
        left: Box::new(Node::Number(2)),
        operator: Operator::Multiply,
        right: Box::new(left),
    };
    let rebuilt = Node::Binary { left: Box::new(left), operator, right: Box::new(right) };
    if result == rebuilt {
        assert(simplified(rebuilt) == rewritten(simplified(left), operator, simplified(right)));
    } else if result == doubled && left is Variable {
        assert(simplified(Node::Number(2)) == Node::Number(2));
        assert(simplified(doubled) == rewritten(
            simplified(Node::Number(2)),
            Operator::Multiply,
            simplified(left),
        ));
    }
}

/// Simplifying twice gives what simplifying once gives.
pub proof fn lemma_simplified_idempotent(node: Node)
    ensures
        simplified(simplified(node)) == simplified(node),
    decreases node,
{
    match node {
        Node::Binary { left, operator, right } => {
            lemma_simplified_idempotent(*left);
            lemma_simplified_idempotent(*right);
            lemma_rewritten_is_fixed(simplified(*left), operator, simplified(*right));
        },
        Node::Equation { left, right } => {
            lemma_simplified_idempotent(*left);
            lemma_simplified_idempotent(*right);
            let once = simplified(node);
            assert(simplified(once) == Node::Equation {
                left: Box::new(simplified(simplified(*left))),
                right: Box::new(simplified(simplified(*right))),
            });
        },
        _ => {},
    }
}

/// A tree that evaluates to a number simplifies to that number.
pub proof fn lemma_simplified_of_valued(node: Node)
    requires
        node.value() is Ok,
    ensures
        simplified(node) == Node::Number(node.value()->Ok_0),
    decreases node,
{
    match node {
        Node::Binary { left, operator, right } => {
            lemma_simplified_of_valued(*left);
            lemma_simplified_of_valued(*right);
        },
        _ => {},
    }
}

/// Simplification keeps an expression free of equations, and a well-formed
/// tree well-formed.
pub proof fn lemma_simplified_well_formed(node: Node)
    ensures
        node.is_expression() ==> simplified(node).is_expression(),
        node.well_formed() ==> simplified(node).well_formed(),
    decreases node,
{
    reveal_with_fuel(Node::is_expression, 2);
    match node {
        Node::Binary { left, operator, right } => {
            lemma_simplified_well_formed(*left);
            lemma_simplified_well_formed(*right);
        },
        Node::Equation { left, right } => {
            lemma_simplified_well_formed(*left);
            lemma_simplified_well_formed(*right);
        },
        _ => {},
    }
}

/// Why an equation could not be solved.
#[derive(Clone, Copy, Debug, PartialEq, Eq, Structural)]
pub enum SolveError {
    /// The root of the tree is not an equation.
    NotAnEquation,
    /// The side that should hold the variable is not a binary node, so there
    /// is nothing to move across.
    UnsupportedShape,
    /// Neither operand of that binary node is the variable itself.
    OnlyVariablesCanBeRearranged,
    /// The operator to undo is a power, which has no inverse here.
    NoInverse,
}

/// One step of isolation. The equation reads `left operator right = rhs`.
/// Where `right` is the variable `var`, it becomes
/// `var = rhs inverse left`; else, where `left` is the variable, it becomes
/// `var = rhs inverse right`, `inverse` being the operator that undoes
/// `operator`.
pub open spec fn rearranged(
    left: Node,
    operator: Operator,
    right: Node,
    rhs: Node,
    var: char,
) -> Result<Node, SolveError> {
    if right == Node::Variable(var) || left == Node::Variable(var) {
        match operator.inverse_of() {
            Some(inverse) => Ok(
                Node::Equation {
                    left: Box::new(Node::Variable(var)),
                    right: Box::new(
                        Node::Binary {
                            left: Box::new(rhs),
                            operator: inverse,
                            right: Box::new(
                                if right == Node::Variable(var) {
                                    left
                                } else {
                                    right
                                },
                            ),
                        },
                    ),
                },
            ),
            None => Err(SolveError::NoInverse),
        }
    } else {
        Err(SolveError::OnlyVariablesCanBeRearranged)
    }
}

/// The equation `head` solved for `var` in a single step: both sides are
/// simplified, the side that holds the variable is taken as the left one
/// (the right side where the variable occurs in it, else the left side), and
/// that side, which must be a binary node, is taken apart by [`rearranged`].
pub open spec fn solved(head: Node, var: char) -> Result<Node, SolveError> {
    match head {
        Node::Equation { left, right } => {
            let swap = simplified(*right).contains_variable(var);
            let side = if swap {
                simplified(*right)
            } else {
                simplified(*left)
            };
            let rhs = if swap {
                simplified(*left)
            } else {
                simplified(*right)
            };
            match side {
                Node::Binary { left, operator, right } => rearranged(
                    *left,
                    operator,
                    *right,
                    rhs,
                    var,
                ),
                _ => Err(SolveError::UnsupportedShape),
            }
        },
        _ => Err(SolveError::NotAnEquation),
    }
}

/// Evaluates, simplifies and rearranges the formula it holds.
pub struct Interpreter {
    pub ast: AST,
}

impl Interpreter {
    /// Evaluates the formula to a number.
    pub fn evaluate(&self) -> (r: Result<i64, EvalError>)
        ensures
            r == self.ast.head.value(),
    {
        self.ast.head.evaluate()
    }

    /// Replaces the formula by its simplified form and returns that form.
    pub fn simplify(&mut self) -> (r: Node)
        ensures
            r == simplified(old(self).ast.head),
            final(self).ast.head == r,
            final(self).ast.vars == old(self).ast.vars,
            final(self).ast.equals == old(self).ast.equals,
    {
        let result = Self::simplify_rec(self.ast.head.clone());
        self.ast.head = result.clone();
        result
    }

    /// Solves the equation for `var` in a single step and, on success,
    /// replaces the formula by the result, `var = ...`. On failure the
    /// formula stays as it was.
    pub fn solve_for(&mut self, var: char) -> (r: Result<Node, SolveError>)
        ensures
            r == solved(old(self).ast.head, var),
            r is Ok ==> final(self).ast.head == r->Ok_0,
            r is Err ==> final(self).ast.head == old(self).ast.head,
            final(self).ast.vars == old(self).ast.vars,
            final(self).ast.equals == old(self).ast.equals,
    {
        if let Node::Equation { left, right } = self.ast.head.clone() {
            let mut left_simplified: Node = Self::simplify_rec(*left);
            let mut right_simplified: Node = Self::simplify_rec(*right);

            if Self::find_var(&right_simplified, var) {
                let temp = left_simplified;
                left_simplified = right_simplified;
                right_simplified = temp;
            }
            let result = match left_simplified {
                Node::Binary { left, operator, right } => Self::rearrange_terms(
                    *left,
                    operator,
                    *right,
                    right_simplified,
                    var,
                ),
                _ => Err(SolveError::UnsupportedShape),
            };
            if let Ok(equation) = &result {
                self.ast.head = equation.clone();
            }
            result
        } else {
            Err(SolveError::NotAnEquation)
        }
    }

    /// Moves the other operand of `left operator right = rhs` across the
    /// equals sign, leaving the variable `var` alone on the left.
    pub fn rearrange_terms(
        left: Node,
        operator: Operator,
        right: Node,
        rhs: Node,
        var: char,
    ) -> (r: Result<Node, SolveError>)
        ensures
            r == rearranged(left, operator, right, rhs, var),
    {
        if let Node::Variable(v) = right {
            if v == var {
                return match operator.inverse() {
                    Some(inverse) => Ok(
                        Node::Equation {
                            left: Box::new(right),
                            right: Box::new(
                                Node::Binary {
                                    left: Box::new(rhs),
                                    operator: inverse,
                                    right: Box::new(left),
                                },
                            ),
                        },
                    ),
                    None => Err(SolveError::NoInverse),
                };
            }
        }
        if let Node::Variable(v) = left {
            if v == var {
                return match operator.inverse() {
                    Some(inverse) => Ok(
                        Node::Equation {
                            left: Box::new(left),
                            right: Box::new(
                                Node::Binary {
                                    left: Box::new(rhs),
                                    operator: inverse,
                                    right: Box::new(right),
                                },
                            ),
                        },
                    ),
                    None => Err(SolveError::NoInverse),
                };
            }
        }
        Err(SolveError::OnlyVariablesCanBeRearranged)
    }

    /// Searches an expression for the variable `var`.
    pub fn find_var(node: &Node, var: char) -> (found: bool)
        ensures
            found == node.contains_variable(var),
        decreases node,
    {
        match node {
            Node::Variable(v) => *v == var,
            Node::Binary { left, right, .. } => Self::find_var(left, var) || Self::find_var(
                right,
                var,
            ),
            _ => false,
        }
    }

    /// Simplifies a tree from the leaves up.
    pub fn simplify_rec(node: Node) -> (r: Node)
        ensures
            r == simplified(node),
        decreases node,
    {
        match node {
            Node::Binary { left, operator, right } => {
                let left_simplified = Self::simplify_rec(*left);
                let right_simplified = Self::simplify_rec(*right);

                if let (Node::Number(l), Node::Number(r)) = (&left_simplified, &right_simplified) {
                    if let Ok(result) = operator.eval(*l, *r) {
                        return Node::Number(result);
                    }
                }
                match (&left_simplified, operator, &right_simplified) {
                    (_, Operator::Add, Node::Number(0)) => {
                        return left_simplified;
                    },
                    (Node::Number(0), Operator::Add, _) => {
                        return right_simplified;
                    },
                    (_, Operator::Subtract, Node::Number(0)) => {
                        return left_simplified;
                    },
                    (Node::Number(0), Operator::Subtract, _) => {
                        return right_simplified;
                    },
                    (_, Operator::Multiply, Node::Number(1)) => {
                        return left_simplified;
                    },
                    (Node::Number(1), Operator::Multiply, _) => {
                        return right_simplified;
                    },
                    (_, Operator::Multiply, Node::Number(0))
                    | (Node::Number(0), Operator::Multiply, _) => {
                        return Node::Number(0);
                    },
                    _ => {},
                }
                if let (Node::Variable(l), Node::Variable(r)) = (&left_simplified, &right_simplified) {
                    if *l == *r {
                        if let Operator::Add = operator {
                            return Node::Binary {
                                left: Box::new(Node::Number(2)),
                                operator: Operator::Multiply,
                                right: Box::new(Node::Variable(*l)),
                            };
                        }
                    }
                }
                Node::Binary {
                    left: Box::new(left_simplified),
                    operator,
                    right: Box::new(right_simplified),
                }
            },
            Node::Equation { left, right } => {
                let left_simplified = Self::simplify_rec(*left);
                let right_simplified = Self::simplify_rec(*right);
                Node::Equation {
                    left: Box::new(left_simplified),
                    right: Box::new(right_simplified),
                }
            },
            _ => node,
        }
    }
}

} // verus!
