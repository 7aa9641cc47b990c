//! Tokens: their kinds, their spans, and what a finished token looks like.

use vstd::prelude::*;
use vstd::string::StringExecFns;

verus! {

/// The operators of the language.
#[derive(PartialEq, Eq, Debug, Clone, Copy, Structural)]
pub enum Operator {
    Plus,
    Minus,
    Multiply,
    Divide,
    Equals,
}

/// The kind of a token. While a token is being assembled this is also the
/// state of the tokenizer.
#[derive(PartialEq, Eq, Debug, Clone, Copy, Structural)]
pub enum TokenType {
    BinLiteral,
    HexLiteral,
    /// While the literal is assembled, the flag says whether it holds a
    /// decimal point. A finished token has it `false`.
    DecimalLiteral(bool),
    /// While the literal is assembled, the flag says whether the next
    /// character is escaped; no transition sets it. A finished token has it
    /// `false`.
    StringLiteral(bool),
    Operator(Operator),
    LineComment,
    LeftParen,
    RightParen,
    LeftBrace,
    RightBrace,
    Equals,
    Identifier,
    Whitespace,
    Newline,
    EndOfFile,
}

impl TokenType {
    /// The kind as a finished token carries it. The flag of a decimal or a
    /// string literal belongs to the assembling of the token only; on the
    /// finished token it is always `false`.
    pub open spec fn resolved(self) -> TokenType {
        match self {
            TokenType::DecimalLiteral(_) => TokenType::DecimalLiteral(false),
            TokenType::StringLiteral(_) => TokenType::StringLiteral(false),
            _ => self,
        }
    }

    /// The kind as a finished token carries it.
    pub fn resolve(self) -> (r: TokenType)
        ensures
            r == self.resolved(),
    {
        match self {
            TokenType::DecimalLiteral(_) => TokenType::DecimalLiteral(false),
            TokenType::StringLiteral(_) => TokenType::StringLiteral(false),
            other => other,
        }
    }

    /// The name of the kind, as it is shown to the user.
    pub open spec fn name_text(self) -> Seq<char> {
        match self {
            TokenType::BinLiteral => "Binary literal"@,
            TokenType::HexLiteral => "Hexadecimal literal"@,
            TokenType::DecimalLiteral(_) => "Decimal literal"@,
            TokenType::StringLiteral(_) => "String literal"@,
            TokenType::Operator(Operator::Plus) => "Plus operator"@,
            TokenType::Operator(Operator::Minus) => "Minus operator"@,
            TokenType::Operator(Operator::Multiply) => "Multiply operator"@,
            TokenType::Operator(Operator::Divide) => "Divide operator"@,
            TokenType::Operator(Operator::Equals) => "Equality operator"@,
            TokenType::LineComment => "Line comment"@,
            TokenType::LeftParen => "Left paren"@,
            TokenType::RightParen => "Right paren"@,
            TokenType::LeftBrace => "Left brace"@,
            TokenType::RightBrace => "Right brace"@,
            TokenType::Identifier => "Identifier"@,
            TokenType::Whitespace => "Whitespace"@,
            TokenType::Newline => "Newline"@,
            TokenType::EndOfFile => "End of file"@,
            TokenType::Equals => "Equals"@,
        }
    }

    /// The name of the kind, as it is shown to the user.
    pub fn name(&self) -> (r: &'static str)
        ensures
            r@ == self.name_text(),
    {
        match self {
            TokenType::BinLiteral => "Binary literal",
            TokenType::HexLiteral => "Hexadecimal literal",
            TokenType::DecimalLiteral(_) => "Decimal literal",
            TokenType::StringLiteral(_) => "String literal",
            TokenType::Operator(Operator::Plus) => "Plus operator",
            TokenType::Operator(Operator::Minus) => "Minus operator",
            TokenType::Operator(Operator::Multiply) => "Multiply operator",
            TokenType::Operator(Operator::Divide) => "Divide operator",
            TokenType::Operator(Operator::Equals) => "Equality operator",
            TokenType::LineComment => "Line comment",
            TokenType::LeftParen => "Left paren",
            TokenType::RightParen => "Right paren",
            TokenType::LeftBrace => "Left brace",
            TokenType::RightBrace => "Right brace",
            TokenType::Identifier => "Identifier",
            TokenType::Whitespace => "Whitespace",
            TokenType::Newline => "Newline",
            TokenType::EndOfFile => "End of file",
            TokenType::Equals => "Equals",
        }
    }
}

/// A place in the source text: lines count from 1, columns from 0.
pub ghost struct Position {
    pub line: nat,
    pub column: nat,
}

impl Position {
    /// Where every text begins.
    pub open spec fn origin() -> Position {
        Position { line: 1, column: 0 }
    }

    /// The place just behind `c`, when `c` stands at `self`: a newline opens
    /// the next line, any other character moves one column on.
    pub open spec fn advance(self, c: char) -> Position {
        if c == '\n' {
            Position { line: self.line + 1, column: 0 }
        } else {
            Position { line: self.line, column: self.column + 1 }
        }
    }

    /// The place just behind `text`, when `text` begins at `self`.
    pub open spec fn advance_over(self, text: Seq<char>) -> Position
        decreases text.len(),
    {
        if text.len() == 0 {
            self
        } else {
            self.advance_over(text.drop_last()).advance(text.last())
        }
    }
}

/// What a token is: its kind, its lexeme, and the span it covers.
pub ghost struct TokenView {
    pub kind: TokenType,
    pub lexeme: Seq<char>,
    pub start: Position,
    pub end: Position,
}

impl TokenView {
    /// The token as it is shown to the user: the name of its kind, a colon,
    /// and its lexeme between double quotes.
    pub open spec fn rendered(self) -> Seq<char> {
        (self.kind.name_text() + ": \""@ + self.lexeme).push('"')
    }
}

/// One token of the output. It is made when its lexeme is complete and never
/// changed afterwards.
#[derive(Debug)]
pub struct Token {
    token_type: TokenType,
    value: String,
    start_line: usize,
    end_line: usize,
    start_index: usize,
    end_index: usize,
}

impl View for Token {
    type V = TokenView;

    closed spec fn view(&self) -> TokenView {
        TokenView {
            kind: self.token_type,
            lexeme: self.value@,
            start: Position { line: self.start_line as nat, column: self.start_index as nat },
            end: Position { line: self.end_line as nat, column: self.end_index as nat },
        }
    }
}

impl Token {
    /// Makes the token of the given kind and lexeme that runs from line
    /// `start_line`, column `start_index`, to line `end_line`, column
    /// `end_index`.
    pub(crate) fn new(
        token_type: TokenType,
        value: String,
        start_line: usize,
        end_line: usize,
        start_index: usize,
        end_index: usize,
    ) -> (r: Token)
        ensures
            r@ == (TokenView {
                kind: token_type,
                lexeme: value@,
                start: Position { line: start_line as nat, column: start_index as nat },
                end: Position { line: end_line as nat, column: end_index as nat },
            }),
    {
        Token { token_type, value, start_line, end_line, start_index, end_index }
    }

    /// The kind of the token.
    pub fn token_type(&self) -> (r: TokenType)
        ensures
            r == self@.kind,
    {
        self.token_type
    }

    /// The lexeme of the token.
    pub fn value(&self) -> (r: &str)
        ensures
            r@ == self@.lexeme,
    {
        self.value.as_str()
    }

    /// The line in which the token starts, counted from 1.
    pub fn start_line(&self) -> (r: usize)
        ensures
            r == self@.start.line,
    {
        self.start_line
    }

    /// The line in which the token ends, counted from 1.
    pub fn end_line(&self) -> (r: usize)
        ensures
            r == self@.end.line,
    {
        self.end_line
    }

    /// The column at which the token starts, counted from 0.
    pub fn start_index(&self) -> (r: usize)
        ensures
            r == self@.start.column,
    {
        self.start_index
    }

    /// The column behind the last character of the token.
    pub fn end_index(&self) -> (r: usize)
        ensures
            r == self@.end.column,
    {
        self.end_index
    }
    /// The token as it is shown to the user.
    pub fn render(&self) -> (r: String)
        ensures
            r@ == self@.rendered(),
    {
        let mut out = String::from_str(self.token_type.name());
        out.append(": \"");
        out.append(self.value.as_str());
        out.push('"');
        out
    }
}

/// The views of a run of tokens, in order.
pub open spec fn token_views(tokens: Seq<Token>) -> Seq<TokenView> {
    tokens.map_values(|t: Token| t@)
}

} // verus!
