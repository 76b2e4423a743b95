//! The parser: from tokens to an expression tree.
//!
//! The grammar, from the loosest binding to the tightest:
//!
//! ```text
//! assignment := term ('=' term)?
//! term       := factor (('+'|'-') factor)*
//! factor     := exponent (('*'|'/') exponent)*
//! exponent   := primary ('^' primary)*
//! primary    := NUMBER | VARIABLE | '(' term ')'
//! ```
//!
//! Operators of one level associate to the left. An empty pair of
//! parentheses stands for the number zero.

use std::collections::VecDeque;
use vstd::prelude::*;

pub use crate::expression::{Node, Operator};
use crate::lexer::{LexicalExpression, LexicalSequence, LexicalSymbol};

verus! {

/// How many pairs of parentheses may enclose one another.
pub const MAX_NESTING: usize = 64;

/// Why a sequence of tokens is not a formula.
#[derive(Clone, Copy, Debug, PartialEq, Eq, Structural)]
pub enum ParseError {
    /// A parenthesis has no partner.
    MismatchedParens,
    /// The tokens ended where an operand was due.
    UnexpectedEnd,
    /// The token `found` stands where an operand was due.
    ExpectedNumberOrVariable { found: LexicalSymbol },
    /// The token `found` stands where an operator or the end was due.
    UnexpectedToken { found: LexicalSymbol },
    /// More than [`MAX_NESTING`] pairs of parentheses enclose one another.
    NestingTooDeep,
}

/// A parsed formula.
#[derive(Debug, PartialEq, Eq)]
pub struct AST {
    /// The root of the tree.
    pub head: Node,
    /// How many variable tokens the parser consumed.
    pub vars: usize,
    /// Whether the formula is an equation.
    pub equals: bool,
}

impl Clone for AST {
    fn clone(&self) -> (copy: AST)
        ensures
            copy == *self,
    {
        AST { head: self.head.clone(), vars: self.vars, equals: self.equals }
    }
}

/// What a production of the grammar yields where it succeeds.
pub struct Parsed {
    /// The tree that was built.
    pub node: Node,
    /// How many tokens were read beyond the first.
    pub extra: nat,
    /// How many of the tokens read were variables.
    pub vars: nat,
}

impl Parsed {
    /// The index of the first token after those read, the first of which
    /// stood at `start`.
    pub open spec fn end(self, start: nat) -> nat {
        start + 1 + self.extra
    }
}

/// The level of the grammar at which `^` is read.
pub open spec fn exponent_level() -> nat {
    1
}

/// The level of the grammar at which `*` and `/` are read.
pub open spec fn factor_level() -> nat {
    2
}

/// The level of the grammar at which `+` and `-` are read.
pub open spec fn term_level() -> nat {
    3
}

/// The operator that `symbol` denotes: one for each of `+ - * / ^`.
pub open spec fn operator_of(symbol: LexicalSymbol) -> Option<Operator> {
    match symbol {
        LexicalSymbol::Plus => Some(Operator::Add),
        LexicalSymbol::Minus => Some(Operator::Subtract),
        LexicalSymbol::Mult => Some(Operator::Multiply),
        LexicalSymbol::Div => Some(Operator::Divide),
        LexicalSymbol::Pow => Some(Operator::Power),
        _ => None,
    }
}

/// The level of the grammar at which `operator` is read.
pub open spec fn level_of(operator: Operator) -> nat {
    match operator {
        Operator::Add => term_level(),
        Operator::Subtract => term_level(),
        Operator::Multiply => factor_level(),
        Operator::Divide => factor_level(),
        Operator::Power => exponent_level(),
    }
}

/// The operator that `symbol` denotes at the given level of the grammar.
pub open spec fn operator_at(level: nat, symbol: LexicalSymbol) -> Option<Operator> {
    match operator_of(symbol) {
        Some(operator) => if level_of(operator) == level {
            Some(operator)
        } else {
            None
        },
        None => None,
    }
}

/// The index of the closing parenthesis that ends a group, looking from
/// index `from` on while `open` further groups are open.
pub open spec fn closing_at(tokens: Seq<LexicalExpression>, from: nat, open: nat) -> Option<nat>
    decreases tokens.len() - from,
{
    if from >= tokens.len() {
        None
    } else {
        match tokens[from as int].symbol {
            LexicalSymbol::OpenParen => closing_at(tokens, from + 1, open + 1),
            LexicalSymbol::CloseParen => if open == 0 {
                Some(from)
            } else {
                closing_at(tokens, from + 1, (open - 1) as nat)
            },
            _ => closing_at(tokens, from + 1, open),
        }
    }
}

/// A closing parenthesis is found at or after the index the search starts
/// from, and within the tokens.
pub proof fn lemma_closing_bounds(tokens: Seq<LexicalExpression>, from: nat, open: nat)
    ensures
        closing_at(tokens, from, open) matches Some(close) ==> from <= close < tokens.len()
            && tokens[close as int].symbol == LexicalSymbol::CloseParen,
    decreases tokens.len() - from,
{
    if from < tokens.len() {
        match tokens[from as int].symbol {
            LexicalSymbol::OpenParen => lemma_closing_bounds(tokens, from + 1, open + 1),
            LexicalSymbol::CloseParen => if open != 0 {
                lemma_closing_bounds(tokens, from + 1, (open - 1) as nat)
            },
            _ => lemma_closing_bounds(tokens, from + 1, open),
        }
    }
}

/// A number or a variable at index `pos`.
pub open spec fn number_at(tokens: Seq<LexicalExpression>, pos: nat) -> Result<
    Parsed,
    ParseError,
> {
    if pos >= tokens.len() {
        Err(ParseError::UnexpectedEnd)
    } else {
        match tokens[pos as int].symbol {
            LexicalSymbol::Number(value) => Ok(
                Parsed { node: Node::Number(value), extra: 0, vars: 0 },
            ),
            LexicalSymbol::Variable(name) => Ok(
                Parsed { node: Node::Variable(name), extra: 0, vars: 1 },
            ),
            found => Err(ParseError::ExpectedNumberOrVariable { found }),
        }
    }
}

/// How far the end of the tokens is from index `pos`.
pub open spec fn remaining(tokens: Seq<LexicalExpression>, pos: nat) -> nat {
    if pos <= tokens.len() {
        (tokens.len() - pos) as nat
    } else {
        0
    }
}

/// The production of the given level that starts at index `pos`, inside
/// `depth` pairs of parentheses.
///
/// Level 0 is `primary`: a number, a variable, or a group in parentheses.
/// The tokens of a group, between the opening parenthesis and the one
/// that closes it, are read on their own as a `term` that must use them all;
/// an empty group is the number zero. A higher level is an operand of the
/// level below it, followed by any number of operators of its own level,
/// each with a further operand.
pub open spec fn level_at(level: nat, tokens: Seq<LexicalExpression>, pos: nat, depth: nat)
    -> Result<Parsed, ParseError>
    decreases tokens.len(), 2 * level, 0nat,
{
    if level > 0 {
        match level_at((level - 1) as nat, tokens, pos, depth) {
            Ok(first) => rest_at(level, tokens, pos, depth, first),
            Err(e) => Err(e),
        }
    } else if pos < tokens.len() && tokens[pos as int].symbol == LexicalSymbol::OpenParen {
        if depth >= MAX_NESTING {
            Err(ParseError::NestingTooDeep)
        } else {
            match closing_at(tokens, pos + 1, 0) {
                None => Err(ParseError::MismatchedParens),
                Some(close) => {
                    let inner = tokens.subrange(pos as int + 1, close as int);
                    if close == pos + 1 {
                        Ok(Parsed { node: Node::Number(0), extra: 1, vars: 0 })
                    } else {
                        proof {
                            lemma_closing_bounds(tokens, pos + 1, 0);
                        }
                        match level_at(term_level(), inner, 0, depth + 1) {
                            Err(e) => Err(e),
                            Ok(group) => if group.end(0) < inner.len() {
                                Err(
                                    ParseError::UnexpectedToken {
                                        found: inner[group.end(0) as int].symbol,
                                    },
                                )
                            } else {
                                Ok(
                                    Parsed {
                                        node: group.node,
                                        extra: (close - pos) as nat,
                                        vars: group.vars,
                                    },
                                )
                            },
                        }
                    }
                },
            }
        }
    } else {
        number_at(tokens, pos)
    }
}

/// What follows an operand of the given level: as long as the next token
/// is an operator of that level, it joins what was read so far, as the left
/// side, to the operand that follows it.
pub open spec fn rest_at(
    level: nat,
    tokens: Seq<LexicalExpression>,
    start: nat,
    depth: nat,
    left: Parsed,
) -> Result<Parsed, ParseError>
    decreases tokens.len(), 2 * level - 1, remaining(tokens, left.end(start)),
{
    let pos = left.end(start);
    if level > 0 && pos < tokens.len() && operator_at(level, tokens[pos as int].symbol) is Some {
        match level_at((level - 1) as nat, tokens, pos + 1, depth) {
            Err(e) => Err(e),
            Ok(right) => rest_at(
                level,
                tokens,
                start,
                depth,
                Parsed {
                    node: Node::Binary {
                        left: Box::new(left.node),
                        operator: operator_at(level, tokens[pos as int].symbol)->Some_0,
                        right: Box::new(right.node),
                    },
                    extra: left.extra + 2 + right.extra,
                    vars: left.vars + right.vars,
                },
            ),
        }
    } else {
        Ok(left)
    }
}

/// The production `term` at index `pos`.
pub open spec fn term_at(tokens: Seq<LexicalExpression>, pos: nat, depth: nat) -> Result<
    Parsed,
    ParseError,
> {
    level_at(term_level(), tokens, pos, depth)
}

/// The production `assignment` at index `pos`: a term, and where an equals
/// sign follows it, a second term, the two joined into an equation.
pub open spec fn assignment_at(tokens: Seq<LexicalExpression>, pos: nat, depth: nat) -> Result<
    Parsed,
    ParseError,
> {
    match term_at(tokens, pos, depth) {
        Err(e) => Err(e),
        Ok(left) => {
            let sign = left.end(pos);
            if sign < tokens.len() && tokens[sign as int].symbol == LexicalSymbol::Equal {
                match term_at(tokens, sign + 1, depth) {
                    Err(e) => Err(e),
                    Ok(right) => Ok(
                        Parsed {
                            node: Node::Equation {
                                left: Box::new(left.node),
                                right: Box::new(right.node),
                            },
                            extra: left.extra + 2 + right.extra,
                            vars: left.vars + right.vars,
                        },
                    ),
                }
            } else {
                Ok(left)
            }
        },
    }
}

/// A whole formula from index `pos` to the end of the tokens: an
/// assignment after which no token is left. A closing parenthesis that is
/// left has no partner; any other token is out of place.
pub open spec fn formula_at(tokens: Seq<LexicalExpression>, pos: nat, depth: nat) -> Result<
    Parsed,
    ParseError,
> {
    match assignment_at(tokens, pos, depth) {
        Err(e) => Err(e),
        Ok(whole) => {
            let end = whole.end(pos);
            if end >= tokens.len() {
                Ok(whole)
            } else if tokens[end as int].symbol == LexicalSymbol::CloseParen {
                Err(ParseError::MismatchedParens)
            } else {
                Err(ParseError::UnexpectedToken { found: tokens[end as int].symbol })
            }
        },
    }
}

/// What the grammar builds is free of equations below the root, holds as
/// many variable leaves as variable tokens were read, and ends within the
/// tokens.
pub proof fn lemma_level_shape(level: nat, tokens: Seq<LexicalExpression>, pos: nat, depth: nat)
    ensures
        level_at(level, tokens, pos, depth) matches Ok(p) ==> {
            &&& p.node.is_expression()
            &&& p.vars == p.node.variable_count()
            &&& p.vars <= 1 + p.extra
            &&& p.end(pos) <= tokens.len()
        },
    decreases tokens.len(), 2 * level, 0nat,
{
    if level > 0 {
        lemma_level_shape((level - 1) as nat, tokens, pos, depth);
        if let Ok(first) = level_at((level - 1) as nat, tokens, pos, depth) {
            lemma_rest_shape(level, tokens, pos, depth, first);
        }
    } else if pos < tokens.len() && tokens[pos as int].symbol == LexicalSymbol::OpenParen {
        if depth < MAX_NESTING {
            lemma_closing_bounds(tokens, pos + 1, 0);
            if let Some(close) = closing_at(tokens, pos + 1, 0) {
                if close != pos + 1 {
                    let inner = tokens.subrange(pos as int + 1, close as int);
                    lemma_level_shape(term_level(), inner, 0, depth + 1);
                }
            }
        }
    }
}

/// The same, of what follows an operand.
pub proof fn lemma_rest_shape(
    level: nat,
    tokens: Seq<LexicalExpression>,
    start: nat,
    depth: nat,
    left: Parsed,
)
    requires
        left.node.is_expression(),
        left.vars == left.node.variable_count(),
        left.vars <= 1 + left.extra,
        left.end(start) <= tokens.len(),
    ensures
        rest_at(level, tokens, start, depth, left) matches Ok(p) ==> {
            &&& p.node.is_expression()
            &&& p.vars == p.node.variable_count()
            &&& p.vars <= 1 + p.extra
            &&& p.end(start) <= tokens.len()
        },
    decreases tokens.len(), 2 * level - 1, remaining(tokens, left.end(start)),
{
    let pos = left.end(start);
    if level > 0 && pos < tokens.len() && operator_at(level, tokens[pos as int].symbol) is Some {
        lemma_level_shape((level - 1) as nat, tokens, pos + 1, depth);
        if let Ok(right) = level_at((level - 1) as nat, tokens, pos + 1, depth) {
            let joined = Parsed {
                node: Node::Binary {
                    left: Box::new(left.node),
                    operator: operator_at(level, tokens[pos as int].symbol)->Some_0,
                    right: Box::new(right.node),
                },
                extra: left.extra + 2 + right.extra,
                vars: left.vars + right.vars,
            };
            lemma_rest_shape(level, tokens, start, depth, joined);
        }
    }
}

/// A formula that parses is well-formed, holds as many variable leaves as
/// variable tokens were read, and uses all the tokens.
pub proof fn lemma_formula_shape(tokens: Seq<LexicalExpression>, pos: nat, depth: nat)
    ensures
        formula_at(tokens, pos, depth) matches Ok(p) ==> {
            &&& p.node.well_formed()
            &&& p.vars == p.node.variable_count()
            &&& p.end(pos) == tokens.len()
        },
{
    lemma_level_shape(term_level(), tokens, pos, depth);
    if let Ok(left) = term_at(tokens, pos, depth) {
        lemma_level_shape(term_level(), tokens, left.end(pos) + 1, depth);
    }
}

/// The operator that a symbol denotes, if it denotes one.
pub fn to_operator(symbol: LexicalSymbol) -> (r: Option<Operator>)
    ensures
        r == operator_of(symbol),
{
    match symbol {
        LexicalSymbol::Plus => Some(Operator::Add),
        LexicalSymbol::Minus => Some(Operator::Subtract),
        LexicalSymbol::Div => Some(Operator::Divide),
        LexicalSymbol::Mult => Some(Operator::Multiply),
        LexicalSymbol::Pow => Some(Operator::Power),
        _ => None,
    }
}

/// The operator that a symbol denotes at the given level of the grammar.
fn to_operator_at(level: u8, symbol: LexicalSymbol) -> (r: Option<Operator>)
    ensures
        r == operator_at(level as nat, symbol),
{
    match to_operator(symbol) {
        Some(operator) => {
            let own: u8 = match operator {
                Operator::Add => 3,
                Operator::Subtract => 3,
                Operator::Multiply => 2,
                Operator::Divide => 2,
                Operator::Power => 1,
            };
            if own == level {
                Some(operator)
            } else {
                None
            }
        },
        None => None,
    }
}

/// Reads a formula from a sequence of tokens, production by production.
///
/// The factory keeps the tokens, the index of the next token to read, how
/// many variables it has read, whether it has read an equation, and how many
/// pairs of parentheses enclose its tokens. A production that fails leaves
/// all of these as they were.
pub struct AstFactory {
    tokens: VecDeque<LexicalExpression>,
    current: usize,
    vars: usize,
    equals: bool,
    depth: usize,
}

impl AstFactory {
    /// The tokens that the factory reads.
    pub closed spec fn tokens(&self) -> Seq<LexicalExpression> {
        self.tokens@
    }

    /// The index of the next token to read.
    pub closed spec fn position(&self) -> nat {
        self.current as nat
    }

    /// How many variable tokens have been read.
    pub closed spec fn variables(&self) -> nat {
        self.vars as nat
    }

    /// Whether an equation has been read.
    pub closed spec fn has_equation(&self) -> bool {
        self.equals
    }

    /// How many pairs of parentheses enclose the tokens.
    pub closed spec fn nesting(&self) -> nat {
        self.depth as nat
    }

    /// The invariant of the factory: the index is within the tokens, no
    /// more variables were counted than tokens read, and the nesting is
    /// within its bound.
    pub closed spec fn wf(&self) -> bool {
        &&& self.current <= self.tokens@.len()
        &&& self.vars <= self.current
        &&& self.depth <= MAX_NESTING
    }

    /// How the factory stands after a production, given how it stood
    /// `before`, what the grammar says the production yields, and what was
    /// returned: on success the tree is returned, the index has moved past
    /// the tokens read and their variables are counted; on failure the
    /// error is returned and nothing has moved.
    pub open spec fn advanced(
        self,
        before: AstFactory,
        expected: Result<Parsed, ParseError>,
        returned: Result<Node, ParseError>,
    ) -> bool {
        &&& self.wf()
        &&& self.tokens() == before.tokens()
        &&& self.nesting() == before.nesting()
        &&& match expected {
            Ok(p) => {
                &&& returned == Ok::<Node, ParseError>(p.node)
                &&& self.position() == p.end(before.position())
                &&& self.variables() == before.variables() + p.vars
            },
            Err(e) => {
                &&& returned == Err::<Node, ParseError>(e)
                &&& self.position() == before.position()
                &&& self.variables() == before.variables()
            },
        }
    }

    /// Reads a number or a variable.
    fn parse_number(&mut self) -> (r: Result<Node, ParseError>)
        requires
            old(self).wf(),
        ensures
            final(self).advanced(
                *old(self),
                number_at(old(self).tokens(), old(self).position()),
                r,
            ),
            final(self).has_equation() == old(self).has_equation(),
    {
        if self.current >= self.tokens.len() {
            return Err(ParseError::UnexpectedEnd);
        }
        match self.tokens[self.current].symbol {
            LexicalSymbol::Number(x) => {
                self.current = self.current + 1;
                Ok(Node::Number(x))
            },
            LexicalSymbol::Variable(x) => {
                self.current = self.current + 1;
                self.vars = self.vars + 1;
                Ok(Node::Variable(x))
            },
            found => Err(ParseError::ExpectedNumberOrVariable { found }),
        }
    }

    /// Reads a primary: a group in parentheses, a number or a variable.
    fn parse_primary(&mut self) -> (r: Result<Node, ParseError>)
        requires
            old(self).wf(),
        ensures
            final(self).advanced(
                *old(self),
                level_at(0, old(self).tokens(), old(self).position(), old(self).nesting()),
                r,
            ),
            final(self).has_equation() == old(self).has_equation(),
        decreases old(self).tokens().len(), 1nat, 0nat,
    {
        if self.current >= self.tokens.len() {
            return Err(ParseError::UnexpectedEnd);
        }
        match self.tokens[self.current].symbol {
            LexicalSymbol::OpenParen => self.parse_paren(),
            _ => self.parse_number(),
        }
    }

    /// Reads a group in parentheses: finds the parenthesis that closes it,
    /// and reads the tokens in between, on their own, as a term.
    fn parse_paren(&mut self) -> (r: Result<Node, ParseError>)
        requires
            old(self).wf(),
        ensures
            final(self).advanced(
                *old(self),
                level_at(0, old(self).tokens(), old(self).position(), old(self).nesting()),
                r,
            ),
            final(self).has_equation() == old(self).has_equation(),
        decreases old(self).tokens().len(), 0nat, 0nat,
    {
        if self.current >= self.tokens.len() {
            return self.parse_number();
        }
        match self.tokens[self.current].symbol {
            LexicalSymbol::OpenParen => {},
            _ => {
                return self.parse_number();
            },
        }
        if self.depth >= MAX_NESTING {
            return Err(ParseError::NestingTooDeep);
        }
        let start: usize = self.current;
        let ghost tokens = self.tokens@;
        let mut open_p: usize = 0;
        let mut private_tokens: VecDeque<LexicalExpression> = VecDeque::new();
        let mut index: usize = start + 1;
        while index < self.tokens.len()
            invariant
                self.tokens@ == tokens,
                start < index <= tokens.len(),
                open_p <= index - start - 1,
                private_tokens@ == tokens.subrange(start as int + 1, index as int),
                closing_at(tokens, (start + 1) as nat, 0) == closing_at(
                    tokens,
                    index as nat,
                    open_p as nat,
                ),
            ensures
                start < index <= tokens.len(),
                private_tokens@ == tokens.subrange(start as int + 1, index as int),
                closing_at(tokens, (start + 1) as nat, 0) == if index < tokens.len() {
                    Some(index as nat)
                } else {
                    None
                },
            decreases tokens.len() - index,
        {
            match self.tokens[index].symbol {
                LexicalSymbol::OpenParen => {
                    open_p = open_p + 1;
                },
                LexicalSymbol::CloseParen => {
                    if open_p == 0 {
                        break ;
                    }
                    open_p = open_p - 1;
                },
                _ => {},
            }
            private_tokens.push_back(self.tokens[index]);
            index = index + 1;
            assert(private_tokens@ =~= tokens.subrange(start as int + 1, index as int));
        }
        if index >= self.tokens.len() {
            return Err(ParseError::MismatchedParens);
        }
        if index == start + 1 {
            self.current = index + 1;
            return Ok(Node::Number(0));
        }
        let mut parser = AstFactory {
            tokens: private_tokens,
            current: 0,
            vars: 0,
            equals: self.equals,
            depth: self.depth + 1,
        };
        let node = match parser.parse_term() {
            Ok(node) => node,
            Err(e) => {
                return Err(e);
            },
        };
        if parser.current < parser.tokens.len() {
            return Err(
                ParseError::UnexpectedToken { found: parser.tokens[parser.current].symbol },
            );
        }
        self.vars = self.vars + parser.vars;
        self.current = index + 1;
        Ok(node)
    }

    /// Reads an operand of the given level: the production of the level
    /// below it.
    fn parse_operand(&mut self, level: u8) -> (r: Result<Node, ParseError>)
        requires
            old(self).wf(),
            1 <= level <= 3,
        ensures
            final(self).advanced(
                *old(self),
                level_at(
                    (level - 1) as nat,
                    old(self).tokens(),
                    old(self).position(),
                    old(self).nesting(),
                ),
                r,
            ),
            final(self).has_equation() == old(self).has_equation(),
        decreases old(self).tokens().len(), 3 * level, 0nat,
    {
        if level == 3 {
            self.parse_factor()
        } else if level == 2 {
            self.parse_exponent()
        } else {
            self.parse_primary()
        }
    }

    /// Reads the production of the given level: an operand, then operators
    /// of this level with their right operands, each joined to what was read
    /// so far as its left operand.
    fn parse_chain(&mut self, level: u8) -> (r: Result<Node, ParseError>)
        requires
            old(self).wf(),
            1 <= level <= 3,
        ensures
            final(self).advanced(
                *old(self),
                level_at(
                    level as nat,
                    old(self).tokens(),
                    old(self).position(),
                    old(self).nesting(),
                ),
                r,
            ),
            final(self).has_equation() == old(self).has_equation(),
        decreases old(self).tokens().len(), 3 * level + 1, 0nat,
    {
        let start: usize = self.current;
        let counted: usize = self.vars;
        let ghost tokens = self.tokens@;
        let ghost depth = self.depth as nat;
        let mut node: Node = match self.parse_operand(level) {
            Ok(node) => node,
            Err(e) => {
                return Err(e);
            },
        };
        while self.current < self.tokens.len()
            invariant
                1 <= level <= 3,
                self.wf(),
                self.tokens@ == tokens,
                tokens == old(self).tokens(),
                self.depth == depth,
                depth == old(self).nesting(),
                self.equals == old(self).has_equation(),
                start == old(self).position(),
                counted == old(self).variables(),
                start < self.current,
                counted <= self.vars,
                counted <= start,
                level_at(level as nat, tokens, start as nat, depth) == rest_at(
                    level as nat,
                    tokens,
                    start as nat,
                    depth,
                    Parsed {
                        node,
                        extra: (self.current - start - 1) as nat,
                        vars: (self.vars - counted) as nat,
                    },
                ),
            ensures
                self.wf(),
                self.tokens@ == tokens,
                self.depth == depth,
                self.equals == old(self).has_equation(),
                start < self.current,
                counted <= self.vars,
                level_at(level as nat, tokens, start as nat, depth) == Ok::<Parsed, ParseError>(
                    Parsed {
                        node,
                        extra: (self.current - start - 1) as nat,
                        vars: (self.vars - counted) as nat,
                    },
                ),
            decreases self.tokens@.len() - self.current,
        {
            let operator = match to_operator_at(level, self.tokens[self.current].symbol) {
                Some(operator) => operator,
                None => {
                    break ;
                },
            };
            let ghost left = Parsed {
                node,
                extra: (self.current - start - 1) as nat,
                vars: (self.vars - counted) as nat,
            };
            self.current = self.current + 1;
            let right = match self.parse_operand(level) {
                Ok(right) => right,
                Err(e) => {
                    self.vars = counted;
                    self.current = start;
                    assert(rest_at(level as nat, tokens, start as nat, depth, left) == Err::<
                        Parsed,
                        ParseError,
                    >(e));
                    return Err(e);
                },
            };
            node = Node::Binary { left: Box::new(node), operator, right: Box::new(right) };
        }
        Ok(node)
    }

    /// Reads a term: factors joined by `+` and `-`.
    pub fn parse_term(&mut self) -> (r: Result<Node, ParseError>)
        requires
            old(self).wf(),
        ensures
            final(self).advanced(
                *old(self),
                term_at(old(self).tokens(), old(self).position(), old(self).nesting()),
                r,
            ),
            final(self).has_equation() == old(self).has_equation(),
        decreases old(self).tokens().len(), 11nat, 0nat,
    {
        self.parse_chain(3)
    }

    /// Reads an assignment: a term, and where an equals sign follows it, a
    /// second term, the two joined into an equation.
    pub fn parse_assignment(&mut self) -> (r: Result<Node, ParseError>)
        requires
            old(self).wf(),
        ensures
            final(self).advanced(
                *old(self),
                assignment_at(old(self).tokens(), old(self).position(), old(self).nesting()),
                r,
            ),
            final(self).has_equation() == (old(self).has_equation() || (r matches Ok(node)
                && node is Equation)),
    {
        let start: usize = self.current;
        let counted: usize = self.vars;
        let left = match self.parse_term() {
            Ok(left) => left,
            Err(e) => {
                return Err(e);
            },
        };
        proof {
            lemma_level_shape(
                term_level(),
                old(self).tokens(),
                old(self).position(),
                old(self).nesting(),
            );
        }
        if self.current < self.tokens.len() {
            if let LexicalSymbol::Equal = self.tokens[self.current].symbol {
                self.current = self.current + 1;
                let right = match self.parse_term() {
                    Ok(right) => right,
                    Err(e) => {
                        self.vars = counted;
                        self.current = start;
                        return Err(e);
                    },
                };
                self.equals = true;
                return Ok(Node::Equation { left: Box::new(left), right: Box::new(right) });
            }
        }
        Ok(left)
    }

    /// Reads a whole formula: an assignment that uses all the tokens that
    /// are left.
    ///
    /// The tree that comes back is well-formed, and its count of variables
    /// has grown by the number of its variable leaves.
    pub fn parse(&mut self) -> (r: Result<AST, ParseError>)
        requires
            old(self).wf(),
        ensures
            final(self).wf(),
            final(self).tokens() == old(self).tokens(),
            final(self).nesting() == old(self).nesting(),
            match formula_at(old(self).tokens(), old(self).position(), old(self).nesting()) {
                Ok(p) => {
                    &&& r matches Ok(ast)
                    &&& ast.head == p.node
                    &&& ast.vars == old(self).variables() + p.vars
                    &&& ast.equals == (old(self).has_equation() || p.node is Equation)
                    &&& ast.head.well_formed()
                    &&& ast.head.variable_count() == p.vars
                    &&& final(self).position() == final(self).tokens().len()
                    &&& final(self).variables() == ast.vars
                    &&& final(self).has_equation() == ast.equals
                },
                Err(e) => {
                    &&& r == Err::<AST, ParseError>(e)
                    &&& final(self).position() == old(self).position()
                    &&& final(self).variables() == old(self).variables()
                    &&& final(self).has_equation() == old(self).has_equation()
                },
            },
    {
        let start: usize = self.current;
        let counted: usize = self.vars;
        let before: bool = self.equals;
        let head = match self.parse_assignment() {
            Ok(head) => head,
            Err(e) => {
                return Err(e);
            },
        };
        proof {
            lemma_formula_shape(old(self).tokens(), old(self).position(), old(self).nesting());
        }
        if self.current < self.tokens.len() {
            let found = self.tokens[self.current].symbol;
            self.vars = counted;
            self.current = start;
            self.equals = before;
            return match found {
                LexicalSymbol::CloseParen => Err(ParseError::MismatchedParens),
                _ => Err(ParseError::UnexpectedToken { found }),
            };
        }
        Ok(AST { head, vars: self.vars, equals: self.equals })
    }

    /// Reads a factor: exponents joined by `*` and `/`.
    fn parse_factor(&mut self) -> (r: Result<Node, ParseError>)
        requires
            old(self).wf(),
        ensures
            final(self).advanced(
                *old(self),
                level_at(
                    factor_level(),
                    old(self).tokens(),
                    old(self).position(),
                    old(self).nesting(),
                ),
                r,
            ),
            final(self).has_equation() == old(self).has_equation(),
        decreases old(self).tokens().len(), 8nat, 0nat,
    {
        self.parse_chain(2)
    }

    /// Reads an exponent: primaries joined by `^`.
    fn parse_exponent(&mut self) -> (r: Result<Node, ParseError>)
        requires
            old(self).wf(),
        ensures
            final(self).advanced(
                *old(self),
                level_at(
                    exponent_level(),
                    old(self).tokens(),
                    old(self).position(),
                    old(self).nesting(),
                ),
                r,
            ),
            final(self).has_equation() == old(self).has_equation(),
        decreases old(self).tokens().len(), 5nat, 0nat,
    {
        self.parse_chain(1)
    }
}

impl From<LexicalSequence> for AstFactory {
    /// A factory that is about to read the first of the given tokens.
    fn from(value: LexicalSequence) -> (factory: AstFactory)
        ensures
            factory.wf(),
            factory.tokens() == value@,
            factory.position() == 0,
            factory.variables() == 0,
            !factory.has_equation(),
            factory.nesting() == 0,
    {
        AstFactory { tokens: value.0, current: 0, equals: false, vars: 0, depth: 0 }
    }
}

impl vstd::std_specs::convert::FromSpecImpl<LexicalSequence> for AstFactory {
    open spec fn obeys_from_spec() -> bool {
        true
    }

    closed spec fn from_spec(value: LexicalSequence) -> AstFactory {
        AstFactory { tokens: value.0, current: 0, equals: false, vars: 0, depth: 0 }
    }
}

} // verus!
