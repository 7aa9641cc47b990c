//! Lexical errors: their kinds and what each one carries.

use crate::text::{
    decimal, lines, lines_between, push_decimal, push_repeated, repeated, split_lines, stack_lines,
    stacked,
};
use crate::token::Position;
use vstd::prelude::*;
use vstd::string::StringExecFns;

verus! {

/// The ways in which a text can fail to be tokenized.
#[derive(PartialEq, Eq, Debug, Clone, Copy, Structural)]
pub enum LexErrorType {
    WrongQuotes,
    MalformedBinLiteral,
    WrongHexCase,
    MalformedHexLiteral,
    MalformedDecLiteral,
    MultipleDecimalPoints,
    UnexpectedCharacter,
    TrailingDPoint,
    EmptyBinLiteral,
    EmptyHexLiteral,
    UnexpectedEOFString,
    MissingTrailingNewLine,
}

impl LexErrorType {
    /// What the error says.
    pub open spec fn message_text(self) -> Seq<char> {
        match self {
            LexErrorType::WrongQuotes => "Wrong quotes"@,
            LexErrorType::MalformedBinLiteral => "Malformed binary literal"@,
            LexErrorType::WrongHexCase => "Hexadecimals should always use lower case"@,
            LexErrorType::MalformedHexLiteral => "Malformed hexadecimal literal"@,
            LexErrorType::MalformedDecLiteral => "Malformed decimal literal"@,
            LexErrorType::MultipleDecimalPoints => "Multiple decimal points in decimal literal"@,
            LexErrorType::UnexpectedCharacter => "Unexpected character in input"@,
            LexErrorType::TrailingDPoint => "Decimal literal cannot end in decimal point"@,
            LexErrorType::EmptyBinLiteral => "Binary literal must be at least one bit long"@,
            LexErrorType::EmptyHexLiteral => "Hexadecimal literal must be at least one digit long"@,
            LexErrorType::UnexpectedEOFString => "Unexpected EOF while lexing string literal"@,
            LexErrorType::MissingTrailingNewLine => "File should end with a trailing newline"@,
        }
    }

    /// What the error says.
    pub fn message(&self) -> (r: &'static str)
        ensures
            r@ == self.message_text(),
    {
        match self {
            LexErrorType::WrongQuotes => "Wrong quotes",
            LexErrorType::MalformedBinLiteral => "Malformed binary literal",
            LexErrorType::WrongHexCase => "Hexadecimals should always use lower case",
            LexErrorType::MalformedHexLiteral => "Malformed hexadecimal literal",
            LexErrorType::MalformedDecLiteral => "Malformed decimal literal",
            LexErrorType::MultipleDecimalPoints => "Multiple decimal points in decimal literal",
            LexErrorType::UnexpectedCharacter => "Unexpected character in input",
            LexErrorType::TrailingDPoint => "Decimal literal cannot end in decimal point",
            LexErrorType::EmptyBinLiteral => "Binary literal must be at least one bit long",
            LexErrorType::EmptyHexLiteral => "Hexadecimal literal must be at least one digit long",
            LexErrorType::UnexpectedEOFString => "Unexpected EOF while lexing string literal",
            LexErrorType::MissingTrailingNewLine => "File should end with a trailing newline",
        }
    }
}

impl LexErrorView {
    /// Whether the span lies in one line.
    pub open spec fn on_one_line(self) -> bool {
        self.start.line == self.end.line
    }

    /// Whether the error can be shown: its span starts in a line of its own
    /// number or a later one and does not run backwards, and a span in one
    /// line lies in a line that the text has.
    pub open spec fn renderable(self) -> bool {
        &&& 1 <= self.start.line <= self.end.line
        &&& self.on_one_line() ==> self.start.column <= self.end.column && self.start.line
            <= lines(self.source).len()
    }

    /// The columns of a span in one line: one number where the span is
    /// empty, else the first column and the column behind the last.
    pub open spec fn columns(self) -> Seq<char> {
        if self.start.column == self.end.column {
            decimal(self.start.column)
        } else {
            decimal(self.start.column) + "-"@ + decimal(self.end.column)
        }
    }

    /// Where the span lies, in words.
    pub open spec fn place(self) -> Seq<char> {
        if self.on_one_line() {
            "line "@ + decimal(self.start.line) + ", index "@ + self.columns()
        } else {
            "lines "@ + decimal(self.start.line) + "-"@ + decimal(self.end.line)
        }
    }

    /// The lines of the text that the span touches, one below the other.
    pub open spec fn excerpt(self) -> Seq<char> {
        stacked(lines_between(lines(self.source), self.start.line, self.end.line))
    }

    /// The line that marks a span in one line: spaces up to the first column,
    /// a caret under each column of the span, and a newline. A span over
    /// several lines is not marked.
    pub open spec fn underline(self) -> Seq<char> {
        if self.on_one_line() {
            (repeated(' ', self.start.column) + repeated(
                '^',
                (self.end.column - self.start.column) as nat,
            )).push('\n')
        } else {
            Seq::empty()
        }
    }

    /// The error as it is shown to the user: the file, what went wrong and
    /// where, the lines concerned, and the mark under them.
    pub open spec fn rendered(self) -> Seq<char> {
        "Error while lexing file "@ + self.file + "\n"@ + self.kind.message_text() + " on "@
            + self.place() + ":\n"@ + self.excerpt() + "\n"@ + self.underline()
    }
}

/// What a lexical error is: its kind, the lexeme that was being assembled
/// when it was found, the span of that lexeme, and the text it was found in.
pub ghost struct LexErrorView {
    pub kind: LexErrorType,
    pub lexeme: Seq<char>,
    pub start: Position,
    pub end: Position,
    pub file: Seq<char>,
    pub source: Seq<char>,
}

/// The first lexical error of a text. It ends the run that found it.
#[derive(Debug)]
pub struct LexError {
    error_type: LexErrorType,
    partial_token: String,
    start_line: usize,
    end_line: usize,
    start_index: usize,
    end_index: usize,
    file: String,
    file_contents: String,
}

impl View for LexError {
    type V = LexErrorView;

    closed spec fn view(&self) -> LexErrorView {
        LexErrorView {
            kind: self.error_type,
            lexeme: self.partial_token@,
            start: Position { line: self.start_line as nat, column: self.start_index as nat },
            end: Position { line: self.end_line as nat, column: self.end_index as nat },
            file: self.file@,
            source: self.file_contents@,
        }
    }
}

impl LexError {
    /// Makes the error of the given kind on the lexeme `partial_token`, which
    /// runs from line `start_line`, column `start_index`, to line `end_line`,
    /// column `end_index`, of the text `file_contents` named `file`.
    pub(crate) fn new(
        error_type: LexErrorType,
        partial_token: String,
        start_line: usize,
        end_line: usize,
        start_index: usize,
        end_index: usize,
        file: String,
        file_contents: String,
    ) -> (r: LexError)
        ensures
            r@ == (LexErrorView {
                kind: error_type,
                lexeme: partial_token@,
                start: Position { line: start_line as nat, column: start_index as nat },
                end: Position { line: end_line as nat, column: end_index as nat },
                file: file@,
                source: file_contents@,
            }),
    {
        LexError {
            error_type,
            partial_token,
            start_line,
            end_line,
            start_index,
            end_index,
            file,
            file_contents,
        }
    }

    /// The kind of the error.
    pub fn error_type(&self) -> (r: LexErrorType)
        ensures
            r == self@.kind,
    {
        self.error_type
    }

    /// The lexeme that was in the making when the error was found.
    pub fn partial_token(&self) -> (r: &str)
        ensures
            r@ == self@.lexeme,
    {
        self.partial_token.as_str()
    }

    /// The line in which that lexeme starts, counted from 1.
    pub fn start_line(&self) -> (r: usize)
        ensures
            r == self@.start.line,
    {
        self.start_line
    }

    /// The line in which that lexeme ends, counted from 1.
    pub fn end_line(&self) -> (r: usize)
        ensures
            r == self@.end.line,
    {
        self.end_line
    }

    /// The column at which that lexeme starts, counted from 0.
    pub fn start_index(&self) -> (r: usize)
        ensures
            r == self@.start.column,
    {
        self.start_index
    }

    /// The column behind the last character of that lexeme.
    pub fn end_index(&self) -> (r: usize)
        ensures
            r == self@.end.column,
    {
        self.end_index
    }

    /// The name of the file that the text is said to come from.
    pub fn file(&self) -> (r: &str)
        ensures
            r@ == self@.file,
    {
        self.file.as_str()
    }

    /// The text in which the error was found.
    pub fn file_contents(&self) -> (r: &str)
        ensures
            r@ == self@.source,
    {
        self.file_contents.as_str()
    }
    /// The error as it is shown to the user.
    pub fn render(&self) -> (r: String)
        requires
            self@.renderable(),
        ensures
            r@ == self@.rendered(),
    {
        let one_line = self.start_line == self.end_line;
        let mut out = String::from_str("Error while lexing file ");
        out.append(self.file.as_str());
        out.append("\n");
        out.append(self.error_type.message());
        out.append(" on ");
        let ghost head = out@;
        if one_line {
            out.append("line ");
            push_decimal(&mut out, self.start_line);
            out.append(", index ");
            push_decimal(&mut out, self.start_index);
            if self.start_index != self.end_index {
                out.append("-");
                push_decimal(&mut out, self.end_index);
            }
        } else {
            out.append("lines ");
            push_decimal(&mut out, self.start_line);
            out.append("-");
            push_decimal(&mut out, self.end_line);
        }
        assert(out@ =~= head + self@.place());
        out.append(":\n");
        let all = split_lines(self.file_contents.as_str());
        let excerpt = stack_lines(&all, self.start_line, self.end_line);
        out.append(excerpt.as_str());
        out.append("\n");
        let ghost body = out@;
        if one_line {
            push_repeated(&mut out, ' ', self.start_index);
            push_repeated(&mut out, '^', self.end_index - self.start_index);
            out.push('\n');
        }
        assert(out@ =~= body + self@.underline());
        out
    }
}

} // verus!
