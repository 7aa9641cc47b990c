//! The tokenizer as a state machine: what it holds between two characters,
//! what one character does to it, and what a whole text comes to.

use crate::chars::{
    ascii_letter, binary_digit, decimal_digit, hex_digit, identifier_char, is_binary_digit,
    is_decimal_digit, is_hex_digit, is_identifier_char, is_literal_terminator,
    is_upper_hex_letter, literal_terminator, unicode_alphabetic, upper_hex_letter,
};
use crate::error::{LexErrorType, LexErrorView};
use crate::token::{Operator, Position, TokenType, TokenView};
use vstd::prelude::*;

verus! {

/// What the tokenizer does with one character.
#[derive(PartialEq, Eq, Debug, Clone, Copy, Structural)]
pub enum Action {
    /// Take the character into the lexeme and go on assembling under the
    /// given kind.
    Extend(TokenType),
    /// Take the character into the lexeme and finish the token under the
    /// given kind at once.
    Emit(TokenType),
    /// Finish the token as it stands, without the character, and look at the
    /// character again from the idle state.
    Release,
    /// Stop with the given error. The flag says whether the character joins
    /// the lexeme that the error reports.
    Reject(LexErrorType, bool),
}

/// The kinds under which a token can be in the making for more than one
/// character. The others are finished by the character that starts them.
pub open spec fn assembling(kind: TokenType) -> bool {
    match kind {
        TokenType::BinLiteral => true,
        TokenType::HexLiteral => true,
        TokenType::DecimalLiteral(_) => true,
        TokenType::StringLiteral(_) => true,
        TokenType::Operator(op) => op == Operator::Divide,
        TokenType::LineComment => true,
        TokenType::Whitespace => true,
        TokenType::Identifier => true,
        TokenType::Equals => true,
        _ => false,
    }
}

/// Whether `partial` can be the lexeme of a token of kind `kind` that is
/// still in the making: every character in it belongs to the kind's family.
pub open spec fn in_family(kind: TokenType, partial: Seq<char>) -> bool {
    match kind {
        TokenType::DecimalLiteral(has_point) => {
            &&& partial.len() >= 1
            &&& decimal_digit(partial[0])
            &&& forall|i: int|
                0 <= i < partial.len() ==> decimal_digit(#[trigger] partial[i]) || partial[i] == '.'
            &&& forall|i: int, j: int|
                0 <= i < j < partial.len() ==> !(#[trigger] partial[i] == '.' && #[trigger] partial[j]
                    == '.')
            &&& has_point == partial.contains('.')
        },
        TokenType::BinLiteral => {
            &&& partial.len() >= 2
            &&& partial[0] == '0'
            &&& partial[1] == 'b'
            &&& forall|i: int| 2 <= i < partial.len() ==> binary_digit(#[trigger] partial[i])
        },
        TokenType::HexLiteral => {
            &&& partial.len() >= 2
            &&& partial[0] == '0'
            &&& partial[1] == 'x'
            &&& forall|i: int| 2 <= i < partial.len() ==> hex_digit(#[trigger] partial[i])
        },
        TokenType::StringLiteral(escaped) => {
            &&& !escaped
            &&& partial.len() >= 1
            &&& partial[0] == '"'
            &&& forall|i: int| 1 <= i < partial.len() ==> #[trigger] partial[i] != '"'
        },
        TokenType::LineComment => {
            &&& partial.len() >= 2
            &&& partial[0] == '/'
            &&& partial[1] == '/'
            &&& forall|i: int| 2 <= i < partial.len() ==> #[trigger] partial[i] != '\n'
        },
        TokenType::Operator(Operator::Divide) => partial =~= seq!['/'],
        TokenType::Whitespace => {
            &&& partial.len() >= 1
            &&& forall|i: int| 0 <= i < partial.len() ==> #[trigger] partial[i] == ' '
        },
        TokenType::Identifier => {
            &&& partial.len() >= 1
            &&& ascii_letter(partial[0])
            &&& forall|i: int|
                0 <= i < partial.len() ==> identifier_char(
                    #[trigger] partial[i],
                    unicode_alphabetic(partial[i]),
                )
        },
        TokenType::Equals => partial =~= seq!['='],
        _ => false,
    }
}

/// The idle state: which token the character starts.
pub open spec fn decide_idle(c: char) -> Action {
    if decimal_digit(c) {
        Action::Extend(TokenType::DecimalLiteral(false))
    } else if c == '"' {
        Action::Extend(TokenType::StringLiteral(false))
    } else if c == '\'' {
        Action::Reject(LexErrorType::WrongQuotes, true)
    } else if c == '+' {
        Action::Emit(TokenType::Operator(Operator::Plus))
    } else if c == '-' {
        Action::Emit(TokenType::Operator(Operator::Minus))
    } else if c == '*' {
        Action::Emit(TokenType::Operator(Operator::Multiply))
    } else if c == '/' {
        Action::Extend(TokenType::Operator(Operator::Divide))
    } else if c == '(' {
        Action::Emit(TokenType::LeftParen)
    } else if c == ')' {
        Action::Emit(TokenType::RightParen)
    } else if c == '{' {
        Action::Emit(TokenType::LeftBrace)
    } else if c == '}' {
        Action::Emit(TokenType::RightBrace)
    } else if ascii_letter(c) {
        Action::Extend(TokenType::Identifier)
    } else if c == ' ' {
        Action::Extend(TokenType::Whitespace)
    } else if c == '\n' {
        Action::Emit(TokenType::Newline)
    } else if c == '=' {
        Action::Extend(TokenType::Equals)
    } else {
        Action::Reject(LexErrorType::UnexpectedCharacter, true)
    }
}

/// Inside a binary literal, whose lexeme so far is `partial`.
pub open spec fn decide_binary(partial: Seq<char>, c: char) -> Action {
    if binary_digit(c) {
        Action::Extend(TokenType::BinLiteral)
    } else if literal_terminator(c) {
        if partial.last() == 'b' {
            Action::Reject(LexErrorType::EmptyBinLiteral, true)
        } else {
            Action::Release
        }
    } else {
        Action::Reject(LexErrorType::MalformedBinLiteral, true)
    }
}

/// Inside a hexadecimal literal, whose lexeme so far is `partial`.
pub open spec fn decide_hex(partial: Seq<char>, c: char) -> Action {
    if hex_digit(c) {
        Action::Extend(TokenType::HexLiteral)
    } else if upper_hex_letter(c) {
        Action::Reject(LexErrorType::WrongHexCase, true)
    } else if literal_terminator(c) {
        if partial.last() == 'x' {
            Action::Reject(LexErrorType::EmptyHexLiteral, false)
        } else {
            Action::Release
        }
    } else {
        Action::Reject(LexErrorType::MalformedHexLiteral, true)
    }
}

/// Inside a decimal literal, whose lexeme so far is `partial`. A `b` or an
/// `x` right behind a lone `0` turns the literal into a binary or a
/// hexadecimal one.
pub open spec fn decide_decimal(has_point: bool, partial: Seq<char>, c: char) -> Action {
    if partial =~= seq!['0'] && c == 'b' {
        Action::Extend(TokenType::BinLiteral)
    } else if partial =~= seq!['0'] && c == 'x' {
        Action::Extend(TokenType::HexLiteral)
    } else if decimal_digit(c) {
        Action::Extend(TokenType::DecimalLiteral(has_point))
    } else if c == '.' {
        if has_point {
            Action::Reject(LexErrorType::MultipleDecimalPoints, true)
        } else {
            Action::Extend(TokenType::DecimalLiteral(true))
        }
    } else if literal_terminator(c) {
        if partial.last() == '.' {
            Action::Reject(LexErrorType::TrailingDPoint, true)
        } else {
            Action::Release
        }
    } else {
        Action::Reject(LexErrorType::MalformedDecLiteral, true)
    }
}

/// The transition table: what the tokenizer does with the character `c` when
/// it is assembling a token of kind `kind` (idle when `None`) whose lexeme so
/// far is `partial`. `alphabetic` says whether Unicode classes `c` as
/// alphabetic.
///
/// A kind that is never assembled has no row of its own; the table gives it
/// `Release`.
pub open spec fn decide(
    kind: Option<TokenType>,
    partial: Seq<char>,
    c: char,
    alphabetic: bool,
) -> Action {
    match kind {
        None => decide_idle(c),
        Some(TokenType::BinLiteral) => decide_binary(partial, c),
        Some(TokenType::HexLiteral) => decide_hex(partial, c),
        Some(TokenType::DecimalLiteral(has_point)) => decide_decimal(has_point, partial, c),
        Some(TokenType::StringLiteral(escaped)) => if c == '"' && !escaped {
            Action::Emit(TokenType::StringLiteral(escaped))
        } else {
            Action::Extend(TokenType::StringLiteral(escaped))
        },
        Some(TokenType::LineComment) => if c == '\n' {
            Action::Release
        } else {
            Action::Extend(TokenType::LineComment)
        },
        Some(TokenType::Operator(Operator::Divide)) => if c == '/' {
            Action::Extend(TokenType::LineComment)
        } else {
            Action::Release
        },
        Some(TokenType::Whitespace) => if c == ' ' {
            Action::Extend(TokenType::Whitespace)
        } else {
            Action::Release
        },
        Some(TokenType::Identifier) => if identifier_char(c, alphabetic) {
            Action::Extend(TokenType::Identifier)
        } else {
            Action::Release
        },
        Some(TokenType::Equals) => if c == '=' {
            Action::Emit(TokenType::Operator(Operator::Equals))
        } else {
            Action::Release
        },
        Some(_) => Action::Release,
    }
}

/// What the tokenizer holds between two characters.
pub ghost struct LexState {
    /// The finished tokens, in order.
    pub tokens: Seq<TokenView>,
    /// The lexeme of the token in the making.
    pub partial: Seq<char>,
    /// The kind under which that token is being assembled; `None` between
    /// tokens.
    pub kind: Option<TokenType>,
    /// Where the token in the making starts.
    pub start: Position,
    /// Where the next character stands.
    pub end: Position,
}

/// An error as the machine finds it: the kind, the lexeme it reports, and
/// the span of the token that was in the making.
pub ghost struct Failure {
    pub kind: LexErrorType,
    pub lexeme: Seq<char>,
    pub start: Position,
    pub end: Position,
}

impl LexState {
    /// The state before the first character.
    pub open spec fn initial() -> LexState {
        LexState {
            tokens: Seq::empty(),
            partial: Seq::empty(),
            kind: None,
            start: Position::origin(),
            end: Position::origin(),
        }
    }

    /// The state and its lexeme agree: between tokens the lexeme is empty,
    /// and a token in the making has a kind that is assembled and a lexeme of
    /// that kind's family.
    pub open spec fn coherent(self) -> bool {
        match self.kind {
            None => self.partial.len() == 0,
            Some(kind) => assembling(kind) && in_family(kind, self.partial),
        }
    }

    /// Takes `c` into the lexeme and moves on behind it.
    pub open spec fn extend(self, c: char) -> LexState {
        LexState { partial: self.partial.push(c), end: self.end.advance(c), ..self }
    }

    /// Goes on under the kind `kind`.
    pub open spec fn under(self, kind: TokenType) -> LexState {
        LexState { kind: Some(kind), ..self }
    }

    /// Turns the lexeme into a finished token of the current kind, with the
    /// kind's flag resolved, and goes idle where that token ends.
    pub open spec fn finalize(self) -> LexState {
        LexState {
            tokens: self.tokens.push(
                TokenView {
                    kind: self.kind.unwrap().resolved(),
                    lexeme: self.partial,
                    start: self.start,
                    end: self.end,
                },
            ),
            partial: Seq::empty(),
            kind: None,
            start: self.end,
            end: self.end,
        }
    }

    /// The error of kind `kind` found in this state. With `with_char` the
    /// character `c` that gave it away joins the lexeme; the span stays that
    /// of the lexeme before it.
    pub open spec fn fail(self, kind: LexErrorType, with_char: bool, c: char) -> Failure {
        Failure {
            kind,
            lexeme: if with_char {
                self.partial.push(c)
            } else {
                self.partial
            },
            start: self.start,
            end: self.end,
        }
    }

    /// The state in which the machine stops when `c` gives an error away: the
    /// token in the making is finished first where the table releases it,
    /// and the lexeme is the one that the error reports. Nothing else
    /// changes.
    pub open spec fn stopped(self, c: char) -> LexState {
        let action = decide(self.kind, self.partial, c, unicode_alphabetic(c));
        let from = if action is Release {
            self.finalize()
        } else {
            self
        };
        match self.step(c) {
            Ok(_) => from,
            Err(failure) => LexState { partial: failure.lexeme, ..from },
        }
    }

    /// Carries out `action` on the character `c`. `Release` only finishes the
    /// token; the character is still to be looked at.
    pub open spec fn apply(self, action: Action, c: char) -> Result<LexState, Failure> {
        match action {
            Action::Extend(kind) => Ok(self.extend(c).under(kind)),
            Action::Emit(kind) => Ok(self.extend(c).under(kind).finalize()),
            Action::Release => Ok(self.finalize()),
            Action::Reject(kind, with_char) => Err(self.fail(kind, with_char, c)),
        }
    }

    /// Consumes the character `c`: looks it up in the transition table, and
    /// where the table releases the token in the making, looks it up once
    /// more from the idle state.
    pub open spec fn step(self, c: char) -> Result<LexState, Failure> {
        let alphabetic = unicode_alphabetic(c);
        let action = decide(self.kind, self.partial, c, alphabetic);
        if action is Release {
            self.finalize().apply(decide_idle(c), c)
        } else {
            self.apply(action, c)
        }
    }

    /// Consumes `text` from left to right, up to the first error.
    pub open spec fn run(self, text: Seq<char>) -> Result<LexState, Failure>
        decreases text.len(),
    {
        if text.len() == 0 {
            Ok(self)
        } else {
            match self.run(text.drop_last()) {
                Ok(before) => before.step(text.last()),
                Err(failure) => Err(failure),
            }
        }
    }

    /// What is left to do when the text has ended: an open string and any
    /// other unfinished token are errors; from the idle state the end-of-file
    /// token closes the sequence.
    pub open spec fn finish(self) -> Result<Seq<TokenView>, Failure> {
        match self.kind {
            Some(TokenType::StringLiteral(_)) => Err(
                self.fail(LexErrorType::UnexpectedEOFString, false, '\0'),
            ),
            Some(_) => Err(self.fail(LexErrorType::MissingTrailingNewLine, false, '\0')),
            None => Ok(self.under(TokenType::EndOfFile).finalize().tokens),
        }
    }
}

impl Failure {
    /// The error as it is reported for the text `source` of the file named
    /// `file`.
    pub open spec fn report(self, file: Seq<char>, source: Seq<char>) -> LexErrorView {
        LexErrorView {
            kind: self.kind,
            lexeme: self.lexeme,
            start: self.start,
            end: self.end,
            file,
            source,
        }
    }
}

/// The tokens of the text `source`, or its first lexical error. `file` names
/// the text in the error.
pub open spec fn tokenize(file: Seq<char>, source: Seq<char>) -> Result<
    Seq<TokenView>,
    LexErrorView,
> {
    match LexState::initial().run(source) {
        Ok(state) => match state.finish() {
            Ok(tokens) => Ok(tokens),
            Err(failure) => Err(failure.report(file, source)),
        },
        Err(failure) => Err(failure.report(file, source)),
    }
}

/// The last character of a lexeme that is not empty.
fn last_char(partial: &str) -> (r: char)
    requires
        partial@.len() > 0,
    ensures
        r == partial@.last(),
{
    let n: usize = partial.unicode_len();
    partial.get_char(n - 1)
}

/// Whether the lexeme is a lone `0`.
fn is_lone_zero(partial: &str) -> (r: bool)
    ensures
        r == (partial@ =~= seq!['0']),
{
    let n: usize = partial.unicode_len();
    n == 1 && partial.get_char(0) == '0'
}

/// Looks the character up in the transition table.
///
/// The kind, if there is one, must be one that is assembled, and then the
/// lexeme so far holds at least the character that started it.
pub fn transition(kind: Option<TokenType>, partial: &str, c: char, alphabetic: bool) -> (r: Action)
    requires
        kind matches Some(k) ==> assembling(k) && partial@.len() > 0,
    ensures
        r == decide(kind, partial@, c, alphabetic),
{
    match kind {
        None => transition_idle(c),
        Some(TokenType::BinLiteral) => {
            if is_binary_digit(c) {
                Action::Extend(TokenType::BinLiteral)
            } else if is_literal_terminator(c) {
                if last_char(partial) == 'b' {
                    Action::Reject(LexErrorType::EmptyBinLiteral, true)
                } else {
                    Action::Release
                }
            } else {
                Action::Reject(LexErrorType::MalformedBinLiteral, true)
            }
        },
        Some(TokenType::HexLiteral) => {
            if is_hex_digit(c) {
                Action::Extend(TokenType::HexLiteral)
            } else if is_upper_hex_letter(c) {
                Action::Reject(LexErrorType::WrongHexCase, true)
            } else if is_literal_terminator(c) {
                if last_char(partial) == 'x' {
                    Action::Reject(LexErrorType::EmptyHexLiteral, false)
                } else {
                    Action::Release
                }
            } else {
                Action::Reject(LexErrorType::MalformedHexLiteral, true)
            }
        },
        Some(TokenType::DecimalLiteral(has_point)) => {
            if c == 'b' && is_lone_zero(partial) {
                Action::Extend(TokenType::BinLiteral)
            } else if c == 'x' && is_lone_zero(partial) {
                Action::Extend(TokenType::HexLiteral)
            } else if is_decimal_digit(c) {
                Action::Extend(TokenType::DecimalLiteral(has_point))
            } else if c == '.' {
                if has_point {
                    Action::Reject(LexErrorType::MultipleDecimalPoints, true)
                } else {
                    Action::Extend(TokenType::DecimalLiteral(true))
                }
            } else if is_literal_terminator(c) {
                if last_char(partial) == '.' {
                    Action::Reject(LexErrorType::TrailingDPoint, true)
                } else {
                    Action::Release
                }
            } else {
                Action::Reject(LexErrorType::MalformedDecLiteral, true)
            }
        },
        Some(TokenType::StringLiteral(escaped)) => {
            if c == '"' && !escaped {
                Action::Emit(TokenType::StringLiteral(escaped))
            } else {
                Action::Extend(TokenType::StringLiteral(escaped))
            }
        },
        Some(TokenType::LineComment) => {
            if c == '\n' {
                Action::Release
            } else {
                Action::Extend(TokenType::LineComment)
            }
        },
        Some(TokenType::Operator(_)) => {
            if c == '/' {
                Action::Extend(TokenType::LineComment)
            } else {
                Action::Release
            }
        },
        Some(TokenType::Whitespace) => {
            if c == ' ' {
                Action::Extend(TokenType::Whitespace)
            } else {
                Action::Release
            }
        },
        Some(TokenType::Identifier) => {
            if is_identifier_char(c, alphabetic) {
                Action::Extend(TokenType::Identifier)
            } else {
                Action::Release
            }
        },
        Some(TokenType::Equals) => {
            if c == '=' {
                Action::Emit(TokenType::Operator(Operator::Equals))
            } else {
                Action::Release
            }
        },
        Some(_) => Action::Release,
    }
}

/// The idle row of the transition table.
pub fn transition_idle(c: char) -> (r: Action)
    ensures
        r == decide_idle(c),
        !(r is Release),
{
    match c {
        '0'..='9' => Action::Extend(TokenType::DecimalLiteral(false)),
        '"' => Action::Extend(TokenType::StringLiteral(false)),
        '\'' => Action::Reject(LexErrorType::WrongQuotes, true),
        '+' => Action::Emit(TokenType::Operator(Operator::Plus)),
        '-' => Action::Emit(TokenType::Operator(Operator::Minus)),
        '*' => Action::Emit(TokenType::Operator(Operator::Multiply)),
        '/' => Action::Extend(TokenType::Operator(Operator::Divide)),
        '(' => Action::Emit(TokenType::LeftParen),
        ')' => Action::Emit(TokenType::RightParen),
        '{' => Action::Emit(TokenType::LeftBrace),
        '}' => Action::Emit(TokenType::RightBrace),
        'a'..='z' | 'A'..='Z' => Action::Extend(TokenType::Identifier),
        ' ' => Action::Extend(TokenType::Whitespace),
        '\n' => Action::Emit(TokenType::Newline),
        '=' => Action::Extend(TokenType::Equals),
        _ => Action::Reject(LexErrorType::UnexpectedCharacter, true),
    }
}

} // verus!
