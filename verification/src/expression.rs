//! Expression trees and the arithmetic of their operators.

use vstd::prelude::*;

verus! {

/// A binary arithmetic operator.
#[derive(Clone, Copy, Debug, PartialEq, Eq, Structural)]
pub enum Operator {
    Add,
    Subtract,
    Multiply,
    Divide,
    Power,
}

/// Why an expression has no value.
#[derive(Clone, Copy, Debug, PartialEq, Eq, Structural)]
pub enum EvalError {
    /// The expression still holds the named variable.
    UnboundVariable { name: char },
    /// The tree is an equation, which has no single value.
    NotAnExpression,
    /// An operation has no result among the 64-bit signed integers: a
    /// quotient by zero, a negative exponent, or a value out of range.
    NotRepresentable,
}

/// `base` multiplied by itself `exp` times.
pub open spec fn power(base: int, exp: nat) -> int
    decreases exp,
{
    if exp == 0 {
        1
    } else {
        base * power(base, (exp - 1) as nat)
    }
}

/// The quotient of `x` by `d` rounded toward zero, for `d != 0`.
pub open spec fn truncated_quotient(x: int, d: int) -> int {
    if x >= 0 && d > 0 {
        x / d
    } else if x >= 0 {
        -(x / (-d))
    } else if d > 0 {
        -((-x) / d)
    } else {
        (-x) / (-d)
    }
}

/// Whether `v` is a value of `i64`.
pub open spec fn fits_i64(v: int) -> bool {
    i64::MIN <= v <= i64::MAX
}

/// The exact integer result of applying `op` to `left` and `right`, where
/// the integers have one: division needs a non-zero divisor and rounds toward
/// zero, and a power needs an exponent that is not negative.
pub open spec fn apply_exact(op: Operator, left: int, right: int) -> Option<int> {
    match op {
        Operator::Add => Some(left + right),
        Operator::Subtract => Some(left - right),
        Operator::Multiply => Some(left * right),
        Operator::Divide => if right == 0 {
            None
        } else {
            Some(truncated_quotient(left, right))
        },
        Operator::Power => if right < 0 {
            None
        } else {
            Some(power(left, right as nat))
        },
    }
}

/// The result of applying `op` to two 64-bit operands: the exact result where
/// there is one and it fits in 64 bits.
pub open spec fn apply(op: Operator, left: i64, right: i64) -> Result<i64, EvalError> {
    match apply_exact(op, left as int, right as int) {
        Some(v) if fits_i64(v) => Ok(v as i64),
        _ => Err(EvalError::NotRepresentable),
    }
}

/// A power of a base other than zero is not zero.
proof fn lemma_power_nonzero(base: int, exp: nat)
    requires
        base != 0,
    ensures
        power(base, exp) != 0,
    decreases exp,
{
    if exp > 0 {
        let p = power(base, (exp - 1) as nat);
        lemma_power_nonzero(base, (exp - 1) as nat);
        assert(base * p != 0) by (nonlinear_arith)
            requires
                base != 0,
                p != 0,
        ;
    }
}

/// The magnitude of a power at least doubles with each further factor of a
/// base whose magnitude is at least two.
proof fn lemma_power_grows(base: int, low: nat, high: nat)
    requires
        base >= 2 || base <= -2,
        low < high,
    ensures
        vstd::math::abs(power(base, high)) >= 2 * vstd::math::abs(power(base, low)),
        vstd::math::abs(power(base, low)) >= 1,
    decreases high,
{
    let prev = (high - 1) as nat;
    let p = power(base, prev);
    assert(power(base, high) == base * p);
    if low < prev {
        lemma_power_grows(base, low, prev);
    } else {
        lemma_power_nonzero(base, low);
    }
    assert(vstd::math::abs(base * p) >= 2 * vstd::math::abs(p)) by (nonlinear_arith)
        requires
            base >= 2 || base <= -2,
    ;
}

/// Every power of one is one.
proof fn lemma_power_of_one(exp: nat)
    ensures
        power(1, exp) == 1,
    decreases exp,
{
    if exp > 0 {
        lemma_power_of_one((exp - 1) as nat);
    }
}

/// The powers of minus one alternate between one and minus one.
proof fn lemma_power_of_minus_one(exp: nat)
    ensures
        power(-1, exp) == if exp % 2 == 0 { 1int } else { -1int },
    decreases exp,
{
    if exp > 0 {
        lemma_power_of_minus_one((exp - 1) as nat);
    }
}

/// Computes `base` to the power `exp`. The bases 0, 1 and -1 are answered
/// at once; any other base is multiplied up, which ends after at most 64
/// steps, with the result or with the first product that is out of range.
fn checked_power(base: i64, exp: i64) -> (r: Option<i64>)
    ensures
        r == match apply(Operator::Power, base, exp) {
            Ok(v) => Some(v),
            Err(_) => None,
        },
{
    if exp < 0 {
        return None;
    }
    if base == 0 {
        return Some(if exp == 0 { 1 } else { 0 });
    }
    if base == 1 {
        proof {
            lemma_power_of_one(exp as nat);
        }
        return Some(1);
    }
    if base == -1 {
        proof {
            lemma_power_of_minus_one(exp as nat);
        }
        return Some(if exp % 2 == 0 { 1 } else { -1 });
    }
    let mut acc: i64 = 1;
    let mut done: i64 = 0;
    while done < exp
        invariant
            base >= 2 || base <= -2,
            0 <= done <= exp,
            acc == power(base as int, done as nat),
        decreases exp - done,
    {
        match acc.checked_mul(base) {
            Some(next) => {
                acc = next;
                done = done + 1;
            },
            None => {
                proof {
                    let step = (done + 1) as nat;
                    assert(power(base as int, step) == base * power(base as int, done as nat));
                    if step < exp {
                        lemma_power_grows(base as int, step, exp as nat);
                    }
                }
                return None;
            },
        }
    }
    Some(acc)
}

impl Operator {
    /// The operator that undoes this one: addition and subtraction undo each
    /// other, and so do multiplication and division. A power has none.
    pub open spec fn inverse_of(self) -> Option<Operator> {
        match self {
            Operator::Add => Some(Operator::Subtract),
            Operator::Subtract => Some(Operator::Add),
            Operator::Multiply => Some(Operator::Divide),
            Operator::Divide => Some(Operator::Multiply),
            Operator::Power => None,
        }
    }

    /// Returns the operator that undoes this one, if there is one.
    pub fn inverse(&self) -> (r: Option<Operator>)
        ensures
            r == self.inverse_of(),
    {
        match self {
            Operator::Add => Some(Operator::Subtract),
            Operator::Subtract => Some(Operator::Add),
            Operator::Multiply => Some(Operator::Divide),
            Operator::Divide => Some(Operator::Multiply),
            Operator::Power => None,
        }
    }

    /// Applies the operator to two numbers.
    pub fn eval(&self, left: i64, right: i64) -> (r: Result<i64, EvalError>)
        ensures
            r == apply(*self, left, right),
    {
        let value = match self {
            Operator::Add => left.checked_add(right),
            Operator::Subtract => left.checked_sub(right),
            Operator::Multiply => left.checked_mul(right),
            Operator::Divide => left.checked_div(right),
            Operator::Power => checked_power(left, right),
        };
        match value {
            Some(v) => Ok(v),
            None => Err(EvalError::NotRepresentable),
        }
    }
}

/// An expression tree.
///
/// An `Equation` states that its two sides are equal. It is meant for the
/// root of a tree only; see [`Node::well_formed`].
#[derive(Debug, PartialEq, Eq)]
pub enum Node {
    Number(i64),
    Variable(char),
    Binary { left: Box<Node>, operator: Operator, right: Box<Node> },
    Equation { left: Box<Node>, right: Box<Node> },
}

impl Node {
    /// Whether no equation occurs anywhere in the tree.
    pub open spec fn is_expression(self) -> bool
        decreases self,
    {
        match self {
            Node::Number(_) => true,
            Node::Variable(_) => true,
            Node::Binary { left, right, .. } => left.is_expression() && right.is_expression(),
            Node::Equation { .. } => false,
        }
    }

    /// Whether an equation occurs at the root or not at all.
    pub open spec fn well_formed(self) -> bool {
        match self {
            Node::Equation { left, right } => left.is_expression() && right.is_expression(),
            _ => self.is_expression(),
        }
    }

    /// The number of variable leaves in the tree, each occurrence counted.
    pub open spec fn variable_count(self) -> nat
        decreases self,
    {
        match self {
            Node::Number(_) => 0,
            Node::Variable(_) => 1,
            Node::Binary { left, right, .. } => left.variable_count() + right.variable_count(),
            Node::Equation { left, right } => left.variable_count() + right.variable_count(),
        }
    }

    /// Whether `var` is a leaf of the expression, looking through binary
    /// nodes only: an equation is not searched.
    pub open spec fn contains_variable(self, var: char) -> bool
        decreases self,
    {
        match self {
            Node::Variable(name) => name == var,
            Node::Binary { left, right, .. } => left.contains_variable(var)
                || right.contains_variable(var),
            _ => false,
        }
    }

    /// The value of the tree: a number is its own value, a binary node
    /// applies its operator to the values of its left and right children, in
    /// that order, and reports the first failure met on the way. A variable
    /// and an equation have no value.
    pub open spec fn value(self) -> Result<i64, EvalError>
        decreases self,
    {
        match self {
            Node::Number(v) => Ok(v),
            Node::Variable(name) => Err(EvalError::UnboundVariable { name }),
            Node::Equation { .. } => Err(EvalError::NotAnExpression),
            Node::Binary { left, operator, right } => match left.value() {
                Err(e) => Err(e),
                Ok(l) => match right.value() {
                    Err(e) => Err(e),
                    Ok(r) => apply(operator, l, r),
                },
            },
        }
    }

    /// Evaluates the tree to a number.
    pub fn evaluate(&self) -> (r: Result<i64, EvalError>)
        ensures
            r == self.value(),
        decreases self,
    {
        match self {
            Node::Number(v) => Ok(*v),
            Node::Variable(name) => Err(EvalError::UnboundVariable { name: *name }),
            Node::Equation { .. } => Err(EvalError::NotAnExpression),
            Node::Binary { left, operator, right } => {
                let l = match left.evaluate() {
                    Ok(l) => l,
                    Err(e) => {
                        return Err(e);
                    },
                };
                let r = match right.evaluate() {
                    Ok(r) => r,
                    Err(e) => {
                        return Err(e);
                    },
                };
                operator.eval(l, r)
            },
        }
    }
}

impl Clone for Node {
    fn clone(&self) -> (copy: Node)
        ensures
            copy == *self,
        decreases self,
    {
        match self {
            Node::Number(v) => Node::Number(*v),
            Node::Variable(name) => Node::Variable(*name),
            Node::Binary { left, operator, right } => Node::Binary {
                left: Box::new((**left).clone()),
                operator: *operator,
                right: Box::new((**right).clone()),
            },
            Node::Equation { left, right } => Node::Equation {
                left: Box::new((**left).clone()),
                right: Box::new((**right).clone()),
            },
        }
    }
}

} // verus!
