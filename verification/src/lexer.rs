//! The tokenizer itself: the state machine run over a text, character by
//! character.

use crate::error::{LexError, LexErrorType};
use crate::grammar::{
    lemma_success_means_tokenization, lemma_tokens_are_a_tokenization, tokenization,
};
use crate::invariants::{
    lemma_run_next, lemma_run_stops_at_error, lemma_step_keeps_coherent, lemma_step_moves_one,
};
use crate::locating::lemma_errors_are_renderable;
use crate::machine::{tokenize, transition, Action, Failure, LexState};
use crate::token::{token_views, Position, Token, TokenType, TokenView};
use vstd::pervasive::unreached;
use vstd::prelude::*;
use vstd::std_specs::iter::IteratorSpec;

verus! {

/// A tokenizer for one text. `new` makes it, `lex` uses it up.
pub struct Lexer {
    full_tokens: Vec<Token>,
    partial_token: String,
    current_char: Option<char>,
    proposed_token_type: Option<TokenType>,
    start_line: usize,
    end_line: usize,
    start_index: usize,
    end_index: usize,
    file: String,
    file_contents: Option<String>,
}

impl View for Lexer {
    type V = LexState;

    closed spec fn view(&self) -> LexState {
        LexState {
            tokens: token_views(self.full_tokens@),
            partial: self.partial_token@,
            kind: self.proposed_token_type,
            start: Position { line: self.start_line as nat, column: self.start_index as nat },
            end: Position { line: self.end_line as nat, column: self.end_index as nat },
        }
    }
}

impl Lexer {
    /// The name of the file that the text is said to come from.
    pub closed spec fn file_name(&self) -> Seq<char> {
        self.file@
    }

    /// The character that was looked at last; `None` before the first.
    pub closed spec fn current(&self) -> Option<char> {
        self.current_char
    }

    /// The text that is being tokenized; `None` until `lex` has been given
    /// one.
    pub closed spec fn text(&self) -> Option<Seq<char>> {
        match self.file_contents {
            Some(contents) => Some(contents@),
            None => None,
        }
    }

    /// Whether the two tokenizers work on the same text under the same name.
    spec fn same_text(&self, other: &Lexer) -> bool {
        &&& self.file == other.file
        &&& self.file_contents == other.file_contents
    }

    /// Whether a character can still be taken in without a counter running
    /// over.
    spec fn has_room(&self) -> bool {
        self.end_line < usize::MAX && self.end_index < usize::MAX
    }

    /// A tokenizer for the text of the file named `current_file`, before its
    /// first character.
    pub fn new(current_file: String) -> (r: Lexer)
        ensures
            r@ == LexState::initial(),
            r.file_name() == current_file@,
            r.current() is None,
            r.text() is None,
    {
        let r = Lexer {
            full_tokens: Vec::new(),
            partial_token: String::new(),
            current_char: None,
            proposed_token_type: None,
            start_line: 1,
            end_line: 1,
            start_index: 0,
            end_index: 0,
            file: current_file,
            file_contents: None,
        };
        assert(token_views(r.full_tokens@) =~= Seq::empty());
        r
    }

    /// Tokenizes `source`: the tokens of the whole text with the
    /// end-of-file token behind them, or the first error.
    ///
    /// The tokenizer must be fresh, and the text must be short enough for
    /// its lines and columns to be counted.
    pub fn lex(self, source: String) -> (r: Result<Vec<Token>, LexError>)
        requires
            self@ == LexState::initial(),
            source@.len() < usize::MAX,
        ensures
            match tokenize(self.file_name(), source@) {
                Ok(tokens) => r matches Ok(found) && token_views(found@) == tokens,
                Err(error) => r matches Err(found) && found@ == error,
            },
            r is Ok <==> exists|tokens: Seq<TokenView>| tokenization(tokens, source@),
            r matches Ok(found) ==> tokenization(token_views(found@), source@),
            r matches Err(found) ==> found@.renderable(),
    {
        proof {
            lemma_success_means_tokenization(self.file_name(), source@);
            if tokenize(self.file_name(), source@) is Ok {
                lemma_tokens_are_a_tokenization(self.file_name(), source@);
            } else {
                lemma_errors_are_renderable(self.file_name(), source@);
            }
        }
        let ghost fresh = self@;
        let ghost file = self.file@;
        let mut lexer = self;
        lexer.file_contents = Some(source.clone());
        let mut chars = source.as_str().chars();
        let ghost mut consumed: int = 0;
        loop
            invariant
                0 <= consumed <= source@.len() < usize::MAX,
                chars.obeys_prophetic_iter_laws(),
                chars.remaining() == source@.skip(consumed),
                fresh == LexState::initial(),
                file == self.file_name(),
                tokenize(file, source@) matches Err(error) ==> error.renderable(),
                tokenize(file, source@) is Ok <==> exists|tokens: Seq<TokenView>|
                    tokenization(tokens, source@),
                fresh.run(source@.take(consumed)) == Ok::<LexState, Failure>(lexer@),
                lexer@.coherent(),
                lexer@.end.line + lexer@.end.column <= 1 + consumed,
                lexer.file_contents == Some(source),
                lexer.file@ == file,
            ensures
                fresh.run(source@) == Ok::<LexState, Failure>(lexer@),
                lexer@.coherent(),
                lexer@.end.line + lexer@.end.column <= 1 + source@.len(),
                lexer.file_contents == Some(source),
                lexer.file@ == file,
            decreases source@.len() - consumed,
        {
            match chars.next() {
                Some(current_char) => {
                    proof {
                        lemma_run_next(fresh, source@, consumed);
                        lemma_step_keeps_coherent(lexer@, current_char);
                        lemma_step_moves_one(lexer@, current_char);
                    }
                    match lexer.consume_char(current_char) {
                        Ok(()) => {},
                        Err(lex_error) => {
                            proof {
                                lemma_run_stops_at_error(fresh, source@, consumed + 1);
                            }
                            return Err(lex_error);
                        },
                    }
                    proof {
                        consumed = consumed + 1;
                    }
                },
                None => {
                    assert(source@.take(consumed) =~= source@);
                    break ;
                },
            }
        }
        match lexer.proposed_token_type {
            Some(TokenType::StringLiteral(_)) => {
                return Err(lexer.construct_error(LexErrorType::UnexpectedEOFString));
            },
            None => {},
            Some(_) => {
                return Err(lexer.construct_error(LexErrorType::MissingTrailingNewLine));
            },
        }
        lexer.proposed_token_type = Some(TokenType::EndOfFile);
        lexer.push_token();
        Ok(lexer.full_tokens)
    }

    /// Finishes the token in the making. The finished token carries the kind
    /// with its flag resolved.
    fn push_token(&mut self)
        requires
            old(self).proposed_token_type is Some,
        ensures
            final(self)@ == old(self)@.finalize(),
            final(self)@.tokens.last().kind == old(self).proposed_token_type.unwrap().resolved(),
            final(self).same_text(old(self)),
            final(self).current_char == old(self).current_char,
    {
        let mut value = String::new();
        std::mem::swap(&mut self.partial_token, &mut value);
        let token = Token::new(
            self.proposed_token_type.unwrap().resolve(),
            value,
            self.start_line,
            self.end_line,
            self.start_index,
            self.end_index,
        );
        self.full_tokens.push(token);
        self.start_line = self.end_line;
        self.start_index = self.end_index;
        self.proposed_token_type = None;
        assert(token_views(self.full_tokens@) =~= token_views(old(self).full_tokens@).push(
            token@,
        ));
    }

    /// Takes `c` into the lexeme in the making.
    fn push_char(&mut self, c: char)
        requires
            old(self).has_room(),
        ensures
            final(self)@ == old(self)@.extend(c),
            final(self).same_text(old(self)),
            final(self).current_char == old(self).current_char,
    {
        self.partial_token.push(c);
        if c == '\n' {
            self.end_line += 1;
            self.end_index = 0;
        } else {
            self.end_index += 1;
        }
    }

    /// The error of kind `e_type` on the lexeme in the making.
    fn construct_error(&self, e_type: LexErrorType) -> (r: LexError)
        requires
            self.file_contents is Some,
        ensures
            r@ == self@.fail(e_type, false, '\0').report(self.file@, self.file_contents.unwrap()@),
    {
        LexError::new(
            e_type,
            self.partial_token.clone(),
            self.start_line,
            self.end_line,
            self.start_index,
            self.end_index,
            self.file.clone(),
            self.file_contents.as_ref().unwrap().clone(),
        )
    }

    /// The error of kind `e_type` on the lexeme in the making and the
    /// character that was looked at last.
    fn construct_error_w_char(&mut self, e_type: LexErrorType) -> (r: LexError)
        requires
            old(self).file_contents is Some,
            old(self).current_char is Some,
        ensures
            r@ == old(self)@.fail(e_type, true, old(self).current_char.unwrap()).report(
                old(self).file@,
                old(self).file_contents.unwrap()@,
            ),
            final(self)@ == (LexState {
                partial: old(self)@.partial.push(old(self).current_char.unwrap()),
                ..old(self)@
            }),
            final(self).same_text(old(self)),
            final(self).current_char == old(self).current_char,
    {
        let c = match self.current_char {
            Some(c) => c,
            None => '\0',
        };
        self.partial_token.push(c);
        self.construct_error(e_type)
    }

    /// Consumes one character of the text. After an error the tokenizer
    /// holds the tokens that were finished before it and the lexeme that the
    /// error reports.
    fn consume_char(&mut self, current_char: char) -> (r: Result<(), LexError>)
        requires
            old(self)@.coherent(),
            old(self).has_room(),
            old(self).file_contents is Some,
        ensures
            final(self).same_text(old(self)),
            final(self).current_char == Some(current_char),
            match old(self)@.step(current_char) {
                Ok(state) => r is Ok && final(self)@ == state,
                Err(failure) => {
                    &&& r matches Err(e) && e@ == failure.report(
                        old(self).file@,
                        old(self).file_contents.unwrap()@,
                    )
                    &&& final(self)@ == old(self)@.stopped(current_char)
                },
            },
    {
        self.current_char = Some(current_char);
        let alphabetic = current_char.is_alphabetic();
        let mut action = transition(
            self.proposed_token_type,
            self.partial_token.as_str(),
            current_char,
            alphabetic,
        );
        if let Action::Release = action {
            self.push_token();
            action = transition(None, self.partial_token.as_str(), current_char, alphabetic);
        }
        match action {
            Action::Extend(kind) => {
                self.push_char(current_char);
                self.proposed_token_type = Some(kind);
                Ok(())
            },
            Action::Emit(kind) => {
                self.push_char(current_char);
                self.proposed_token_type = Some(kind);
                self.push_token();
                Ok(())
            },
            Action::Reject(e_type, with_char) => {
                if with_char {
                    Err(self.construct_error_w_char(e_type))
                } else {
                    Err(self.construct_error(e_type))
                }
            },
            // The idle row never releases.
            Action::Release => unreached(),
        }
    }
}

} // verus!
