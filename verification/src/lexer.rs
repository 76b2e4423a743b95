//! The tokenizer: from text to a sequence of lexical symbols.

use std::collections::VecDeque;
use vstd::prelude::*;

use crate::text::{
    alphabetic, chars_of, decimal_text, is_alphabetic, is_whitespace, push_decimal, whitespace,
};

verus! {

/// A lexical symbol of a formula.
#[derive(Clone, Copy, Debug, PartialEq, Eq, Structural)]
pub enum LexicalSymbol {
    Variable(char),
    Plus,
    Minus,
    Div,
    Mult,
    Pow,
    Equal,
    Number(i64),
    OpenParen,
    CloseParen,
}

/// A symbol together with the index, counted in characters, of the first
/// character that it was read from.
#[derive(Clone, Copy, Debug, PartialEq, Eq, Structural)]
pub struct LexicalExpression {
    pub symbol: LexicalSymbol,
    pub pos: usize,
}

/// The tokens of a formula, in the order of the text.
#[derive(Debug, PartialEq, Eq)]
pub struct LexicalSequence(pub VecDeque<LexicalExpression>);

impl Clone for LexicalSequence {
    fn clone(&self) -> (copy: LexicalSequence)
        ensures
            copy@ == self@,
    {
        let tokens = self.0.clone();
        assert(tokens@ =~= self.0@);
        LexicalSequence(tokens)
    }
}

/// Why a text is not a sequence of tokens.
#[derive(Clone, Copy, Debug, PartialEq, Eq, Structural)]
pub enum LexError {
    /// The character at index `position` belongs to no token.
    UnexpectedSymbol { character: char, position: usize },
    /// The number that starts at index `position` is larger than `i64::MAX`.
    NumberTooLarge { position: usize },
}

/// What a single character means to the tokenizer.
#[derive(Clone, Copy, Debug, PartialEq, Eq, Structural)]
pub enum Lexeme {
    /// A decimal digit, with its value.
    Digit(u8),
    /// A character that separates tokens and is dropped.
    Skip,
    /// A character that is a token by itself.
    Symbol(LexicalSymbol),
    /// A character that no formula may hold.
    Unexpected,
}

/// Whether `c` is one of the ten decimal digits.
pub open spec fn is_digit(c: char) -> bool {
    '0' <= c && c <= '9'
}

/// The value of the decimal digit `c`.
pub open spec fn digit_value(c: char) -> int {
    c as int - '0' as int
}

/// The meaning of the character `c`, given whether it is white space and
/// whether it is alphabetic. Digits and the eight operator and punctuation
/// characters come first, then white space, then letters.
pub open spec fn lexeme_of(c: char, space: bool, letter: bool) -> Lexeme {
    if is_digit(c) {
        Lexeme::Digit(digit_value(c) as u8)
    } else if c == '+' {
        Lexeme::Symbol(LexicalSymbol::Plus)
    } else if c == '-' {
        Lexeme::Symbol(LexicalSymbol::Minus)
    } else if c == '/' {
        Lexeme::Symbol(LexicalSymbol::Div)
    } else if c == '*' {
        Lexeme::Symbol(LexicalSymbol::Mult)
    } else if c == '(' {
        Lexeme::Symbol(LexicalSymbol::OpenParen)
    } else if c == ')' {
        Lexeme::Symbol(LexicalSymbol::CloseParen)
    } else if c == '^' {
        Lexeme::Symbol(LexicalSymbol::Pow)
    } else if c == '=' {
        Lexeme::Symbol(LexicalSymbol::Equal)
    } else if space {
        Lexeme::Skip
    } else if letter {
        Lexeme::Symbol(LexicalSymbol::Variable(c))
    } else {
        Lexeme::Unexpected
    }
}

/// The meaning of the character `c` in a formula.
pub open spec fn lexeme_at(c: char) -> Lexeme {
    lexeme_of(c, whitespace(c), alphabetic(c))
}

/// The index at which the run of digits that starts at `from` ends.
pub open spec fn digits_end(text: Seq<char>, from: nat) -> nat
    decreases text.len() - from,
{
    if from < text.len() && is_digit(text[from as int]) {
        digits_end(text, from + 1)
    } else {
        from
    }
}

/// A run of digits ends within the text, and after its first digit.
pub proof fn lemma_digits_end_bounds(text: Seq<char>, from: nat)
    requires
        from <= text.len(),
    ensures
        from <= digits_end(text, from) <= text.len(),
        from < text.len() && is_digit(text[from as int]) ==> from < digits_end(text, from),
    decreases text.len() - from,
{
    if from < text.len() && is_digit(text[from as int]) {
        lemma_digits_end_bounds(text, from + 1);
    }
}

/// The number that a sequence of decimal digits denotes.
pub open spec fn decimal_value(digits: Seq<char>) -> int
    decreases digits.len(),
{
    if digits.len() == 0 {
        0
    } else {
        10 * decimal_value(digits.drop_last()) + digit_value(digits.last())
    }
}

/// `first` put in front of the tokens `rest`, where there are any.
pub open spec fn prefixed(
    first: Seq<LexicalExpression>,
    rest: Result<Seq<LexicalExpression>, LexError>,
) -> Result<Seq<LexicalExpression>, LexError> {
    match rest {
        Ok(tokens) => Ok(first + tokens),
        Err(e) => Err(e),
    }
}

/// The tokens of `text` from index `from` on, or the first thing in the way.
///
/// A run of digits is one number token, placed where the run starts; white
/// space is dropped; every other accepted character is a token of its own.
pub open spec fn tokens_from(text: Seq<char>, from: nat) -> Result<
    Seq<LexicalExpression>,
    LexError,
>
    recommends
        text.len() <= usize::MAX,
    decreases text.len() - from,
{
    if from >= text.len() {
        Ok(Seq::empty())
    } else {
        match lexeme_at(text[from as int]) {
            Lexeme::Digit(_) => {
                let end = digits_end(text, from);
                let value = decimal_value(text.subrange(from as int, end as int));
                if value > i64::MAX {
                    Err(LexError::NumberTooLarge { position: from as usize })
                } else {
                    proof {
                        lemma_digits_end_bounds(text, from);
                    }
                    prefixed(
                        seq![
                            LexicalExpression {
                                symbol: LexicalSymbol::Number(value as i64),
                                pos: from as usize,
                            },
                        ],
                        tokens_from(text, end),
                    )
                }
            },
            Lexeme::Skip => tokens_from(text, from + 1),
            Lexeme::Symbol(symbol) => prefixed(
                seq![LexicalExpression { symbol, pos: from as usize }],
                tokens_from(text, from + 1),
            ),
            Lexeme::Unexpected => Err(
                LexError::UnexpectedSymbol {
                    character: text[from as int],
                    position: from as usize,
                },
            ),
        }
    }
}

/// The tokens of `text`.
pub open spec fn tokens_of(text: Seq<char>) -> Result<Seq<LexicalExpression>, LexError> {
    tokens_from(text, 0)
}

/// Decides what the character `c` means, given whether it is white space and
/// whether it is alphabetic.
pub fn lexeme(c: char, space: bool, letter: bool) -> (r: Lexeme)
    ensures
        r == lexeme_of(c, space, letter),
{
    if c >= '0' && c <= '9' {
        Lexeme::Digit((c as u32 - '0' as u32) as u8)
    } else if c == '+' {
        Lexeme::Symbol(LexicalSymbol::Plus)
    } else if c == '-' {
        Lexeme::Symbol(LexicalSymbol::Minus)
    } else if c == '/' {
        Lexeme::Symbol(LexicalSymbol::Div)
    } else if c == '*' {
        Lexeme::Symbol(LexicalSymbol::Mult)
    } else if c == '(' {
        Lexeme::Symbol(LexicalSymbol::OpenParen)
    } else if c == ')' {
        Lexeme::Symbol(LexicalSymbol::CloseParen)
    } else if c == '^' {
        Lexeme::Symbol(LexicalSymbol::Pow)
    } else if c == '=' {
        Lexeme::Symbol(LexicalSymbol::Equal)
    } else if space {
        Lexeme::Skip
    } else if letter {
        Lexeme::Symbol(LexicalSymbol::Variable(c))
    } else {
        Lexeme::Unexpected
    }
}

/// Every index of a run of digits holds a digit, and the run stops at the
/// end of the text or before a character that is no digit.
pub proof fn lemma_digits_run(text: Seq<char>, from: nat)
    requires
        from <= text.len(),
    ensures
        forall|k: int| from <= k < digits_end(text, from) ==> is_digit(#[trigger] text[k]),
        digits_end(text, from) < text.len() ==> !is_digit(text[digits_end(text, from) as int]),
    decreases text.len() - from,
{
    if from < text.len() && is_digit(text[from as int]) {
        lemma_digits_run(text, from + 1);
    }
}

/// Reading one more digit multiplies the number by ten and adds the digit.
proof fn lemma_decimal_value_step(text: Seq<char>, from: int, to: int)
    requires
        0 <= from <= to < text.len(),
    ensures
        decimal_value(text.subrange(from, to + 1)) == 10 * decimal_value(text.subrange(from, to))
            + digit_value(text[to]),
{
    let longer = text.subrange(from, to + 1);
    assert(longer.drop_last() =~= text.subrange(from, to));
}

/// The number that a run of digits denotes is not negative and does not
/// shrink as the run goes on.
proof fn lemma_decimal_value_grows(text: Seq<char>, from: int, mid: int, to: int)
    requires
        0 <= from <= mid <= to <= text.len(),
        forall|k: int| from <= k < to ==> is_digit(#[trigger] text[k]),
    ensures
        0 <= decimal_value(text.subrange(from, mid)) <= decimal_value(text.subrange(from, to)),
    decreases to - from,
{
    if mid < to {
        lemma_decimal_value_grows(text, from, mid, to - 1);
        lemma_decimal_value_step(text, from, to - 1);
    } else if from < mid {
        lemma_decimal_value_grows(text, from, mid - 1, mid - 1);
        lemma_decimal_value_step(text, from, mid - 1);
    } else {
        assert(text.subrange(from, mid).len() == 0);
    }
}

/// Whether `token` is what the text gives at the index that the token
/// carries: the symbol of the character there, or the number that the run
/// of digits starting there denotes.
pub open spec fn token_reads(text: Seq<char>, token: LexicalExpression) -> bool {
    let pos = token.pos as nat;
    &&& pos < text.len()
    &&& match lexeme_at(text[pos as int]) {
        Lexeme::Digit(_) => token.symbol == LexicalSymbol::Number(
            decimal_value(text.subrange(pos as int, digits_end(text, pos) as int)) as i64,
        ),
        Lexeme::Symbol(symbol) => token.symbol == symbol,
        _ => false,
    }
}

/// The tokens of a text keep the order of the text: each stems from the
/// character at its index, and the indices grow from one token to the next.
pub proof fn lemma_tokens_in_order(text: Seq<char>, from: nat)
    requires
        text.len() <= usize::MAX,
    ensures
        tokens_from(text, from) matches Ok(tokens) ==> {
            &&& forall|i: int|
                0 <= i < tokens.len() ==> from <= (#[trigger] tokens[i]).pos && token_reads(
                    text,
                    tokens[i],
                )
            &&& forall|i: int, j: int|
                0 <= i < j < tokens.len() ==> (#[trigger] tokens[i]).pos < (
                #[trigger] tokens[j]).pos
        },
    decreases text.len() - from,
{
    if from < text.len() {
        let next: nat = match lexeme_at(text[from as int]) {
            Lexeme::Digit(_) => digits_end(text, from),
            _ => from + 1,
        };
        lemma_digits_end_bounds(text, from);
        lemma_tokens_in_order(text, next);
    }
}

/// The value of `c` where it is a decimal digit.
pub fn to_digit(c: char) -> (r: Option<u8>)
    ensures
        r == if is_digit(c) {
            Some(digit_value(c) as u8)
        } else {
            None
        },
{
    if c >= '0' && c <= '9' {
        Some((c as u32 - '0' as u32) as u8)
    } else {
        None
    }
}

/// Splits a formula into its tokens.
///
/// The text is read from left to right. The result is the tokens in the
/// order of the text, or the first character that belongs to no token, or
/// the first number that does not fit in 64 bits.
pub fn analyze(input: String) -> (r: Result<LexicalSequence, LexError>)
    ensures
        match r {
            Ok(sequence) => tokens_of(input@) == Ok::<Seq<LexicalExpression>, LexError>(
                sequence.0@,
            ),
            Err(e) => tokens_of(input@) == Err::<Seq<LexicalExpression>, LexError>(e),
        },
{
    let chars = chars_of(input.as_str());
    let ghost text = input@;
    let mut out: VecDeque<LexicalExpression> = VecDeque::new();
    let mut i: usize = 0;
    while i < chars.len()
        invariant
            text == input@,
            chars@ == text,
            i <= chars.len(),
            tokens_of(text) == prefixed(out@, tokens_from(text, i as nat)),
        decreases chars.len() - i,
    {
        let c = chars[i];
        let ghost before = out@;
        match lexeme(c, is_whitespace(c), is_alphabetic(c)) {
            Lexeme::Digit(first) => {
                let start: usize = i;
                let mut value: i64 = first as i64;
                i = i + 1;
                proof {
                    lemma_digits_run(text, start as nat);
                    lemma_digits_end_bounds(text, start as nat);
                    lemma_decimal_value_step(text, start as int, start as int);
                    assert(text.subrange(start as int, start as int).len() == 0);
                }
                while i < chars.len()
                    invariant
                        text == input@,
                        chars@ == text,
                        tokens_of(text) == prefixed(out@, tokens_from(text, start as nat)),
                        lexeme_at(text[start as int]) is Digit,
                        start < i <= chars.len(),
                        i <= digits_end(text, start as nat) <= text.len(),
                        forall|k: int|
                            start <= k < digits_end(text, start as nat) ==> is_digit(
                                #[trigger] text[k],
                            ),
                        digits_end(text, start as nat) < text.len() ==> !is_digit(
                            text[digits_end(text, start as nat) as int],
                        ),
                        value == decimal_value(text.subrange(start as int, i as int)),
                        0 <= value,
                    ensures
                        i == digits_end(text, start as nat),
                    decreases chars.len() - i,
                {
                    let digit = match to_digit(chars[i]) {
                        Some(digit) => digit,
                        None => {
                            break ;
                        },
                    };
                    proof {
                        lemma_decimal_value_step(text, start as int, i as int);
                        lemma_decimal_value_grows(
                            text,
                            start as int,
                            i as int + 1,
                            digits_end(text, start as nat) as int,
                        );
                    }
                    let next = match value.checked_mul(10) {
                        Some(tens) => tens.checked_add(digit as i64),
                        None => None,
                    };
                    match next {
                        Some(next) => {
                            value = next;
                        },
                        None => {
                            return Err(LexError::NumberTooLarge { position: start });
                        },
                    }
                    i = i + 1;
                }
                let token = LexicalExpression { symbol: LexicalSymbol::Number(value), pos: start };
                out.push_back(token);
                assert(out@ =~= before + seq![token]);
            },
            Lexeme::Skip => {
                i = i + 1;
            },
            Lexeme::Symbol(symbol) => {
                let token = LexicalExpression { symbol, pos: i };
                out.push_back(token);
                assert(out@ =~= before + seq![token]);
                i = i + 1;
            },
            Lexeme::Unexpected => {
                return Err(LexError::UnexpectedSymbol { character: c, position: i });
            },
        }
        proof {
            let rest = tokens_from(text, i as nat);
            if let Ok(tokens) = rest {
                if out@ != before {
                    assert((before + seq![out@.last()]) + tokens =~= before + (seq![out@.last()]
                        + tokens));
                }
            }
        }
    }
    assert(out@ + Seq::<LexicalExpression>::empty() =~= out@);
    Ok(LexicalSequence(out))
}

/// How a symbol is written out: an operator or a parenthesis as its
/// character, a number in decimal, and the variable `x` as `Var(x)`.
pub open spec fn symbol_text(symbol: LexicalSymbol) -> Seq<char> {
    match symbol {
        LexicalSymbol::Variable(name) => seq!['V', 'a', 'r', '(', name, ')'],
        LexicalSymbol::Plus => seq!['+'],
        LexicalSymbol::Minus => seq!['-'],
        LexicalSymbol::Div => seq!['/'],
        LexicalSymbol::Mult => seq!['*'],
        LexicalSymbol::Pow => seq!['^'],
        LexicalSymbol::Equal => seq!['='],
        LexicalSymbol::Number(value) => decimal_text(value as int),
        LexicalSymbol::OpenParen => seq!['('],
        LexicalSymbol::CloseParen => seq![')'],
    }
}

/// How a sequence of tokens is written out: each symbol in turn, each
/// followed by one space.
pub open spec fn sequence_text(tokens: Seq<LexicalExpression>) -> Seq<char>
    decreases tokens.len(),
{
    if tokens.len() == 0 {
        Seq::empty()
    } else {
        sequence_text(tokens.drop_last()) + symbol_text(tokens.last().symbol) + seq![' ']
    }
}

impl LexicalSymbol {
    /// Appends the written form of the symbol to `out`.
    pub fn write_to(&self, out: &mut String)
        ensures
            final(out)@ == old(out)@ + symbol_text(*self),
    {
        match self {
            LexicalSymbol::Variable(name) => {
                out.push('V');
                out.push('a');
                out.push('r');
                out.push('(');
                out.push(*name);
                out.push(')');
            },
            LexicalSymbol::Plus => out.push('+'),
            LexicalSymbol::Minus => out.push('-'),
            LexicalSymbol::Div => out.push('/'),
            LexicalSymbol::Mult => out.push('*'),
            LexicalSymbol::Pow => out.push('^'),
            LexicalSymbol::Equal => out.push('='),
            LexicalSymbol::Number(value) => push_decimal(out, *value),
            LexicalSymbol::OpenParen => out.push('('),
            LexicalSymbol::CloseParen => out.push(')'),
        }
        assert(final(out)@ =~= old(out)@ + symbol_text(*self));
    }

    /// The written form of the symbol.
    pub fn to_string(&self) -> (text: String)
        ensures
            text@ == symbol_text(*self),
    {
        let mut text = String::new();
        self.write_to(&mut text);
        assert(text@ =~= symbol_text(*self));
        text
    }

    /// Whether the symbol is one of the five arithmetic operators.
    pub fn is_operator(&self) -> (r: bool)
        ensures
            r == (*self is Plus || *self is Minus || *self is Div || *self is Mult || *self
                is Pow),
    {
        match self {
            LexicalSymbol::Plus
            | LexicalSymbol::Minus
            | LexicalSymbol::Div
            | LexicalSymbol::Mult
            | LexicalSymbol::Pow => true,
            _ => false,
        }
    }
}

impl LexicalSequence {
    /// The tokens as a mathematical sequence.
    pub open spec fn view(&self) -> Seq<LexicalExpression> {
        self.0@
    }

    /// The written form of the sequence.
    pub fn to_string(&self) -> (text: String)
        ensures
            text@ == sequence_text(self@),
    {
        let mut text = String::new();
        let mut i: usize = 0;
        while i < self.0.len()
            invariant
                i <= self.0.len(),
                text@ == sequence_text(self@.take(i as int)),
            decreases self.0.len() - i,
        {
            self.0[i].symbol.write_to(&mut text);
            text.push(' ');
            i = i + 1;
            assert(self@.take(i as int).drop_last() =~= self@.take(i as int - 1));
        }
        assert(self@.take(i as int) =~= self@);
        text
    }
}

} // verus!
