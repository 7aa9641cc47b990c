//! What holds of every text that is tokenized.

use crate::error::LexErrorView;
use crate::invariants::{
    all_complete, complete, contiguous, joined, lemma_joined_push, lemma_run_reaches, reached,
    spans_follow_lexemes,
};
use crate::machine::{decide_idle, tokenize, LexState};
use crate::token::{TokenType, TokenView};
use vstd::prelude::*;

verus! {

/// A character that ends a token is looked at a second time, from the idle
/// state, and never a third time: the idle state takes every character in or
/// refuses it.
pub proof fn lemma_idle_never_releases(c: char)
    ensures
        !(decide_idle(c) is Release),
{
}

/// The tokens of a text end in the end-of-file token and hold no other one.
pub open spec fn closed_by_end_of_file(tokens: Seq<TokenView>) -> bool {
    &&& tokens.len() >= 1
    &&& tokens.last().kind == TokenType::EndOfFile
    &&& forall|i: int|
        0 <= i < tokens.len() - 1 ==> (#[trigger] tokens[i]).kind != TokenType::EndOfFile
}

/// What the tokens of a text owe to the run that made them.
proof fn lemma_tokens_from_run(file: Seq<char>, source: Seq<char>)
    requires
        tokenize(file, source) is Ok,
    ensures
        LexState::initial().run(source) matches Ok(s) && reached(s, source) && s.kind is None
            && tokenize(file, source) == Ok::<Seq<TokenView>, LexErrorView>(
            s.tokens.push(
                TokenView {
                    kind: TokenType::EndOfFile,
                    lexeme: Seq::empty(),
                    start: s.end,
                    end: s.end,
                },
            ),
        ),
{
    lemma_run_reaches(source);
    let s = LexState::initial().run(source)->Ok_0;
    assert(s.partial =~= Seq::empty());
}

/// The spans of the tokens of a text are contiguous: the first token starts
/// at line 1, column 0, and every other token starts where the one before it
/// ends. The last token is the end-of-file token, it is the only one, and it
/// has no width.
pub proof fn lemma_tokens_are_contiguous(file: Seq<char>, source: Seq<char>)
    requires
        tokenize(file, source) is Ok,
    ensures
        contiguous(tokenize(file, source)->Ok_0),
        closed_by_end_of_file(tokenize(file, source)->Ok_0),
        (tokenize(file, source)->Ok_0).last().start == (tokenize(file, source)->Ok_0).last().end,
{
    lemma_tokens_from_run(file, source);
    let s = LexState::initial().run(source)->Ok_0;
    let tokens = tokenize(file, source)->Ok_0;
    assert forall|i: int, j: int| 0 <= i && j == i + 1 && j < tokens.len() implies (
    #[trigger] tokens[i]).end == (#[trigger] tokens[j]).start by {
        assert(tokens[i] == s.tokens[i]);
        if j < s.tokens.len() {
            assert(tokens[j] == s.tokens[j]);
        }
    }
    assert forall|i: int| 0 <= i < tokens.len() - 1 implies (#[trigger] tokens[i]).kind
        != TokenType::EndOfFile by {
        assert(tokens[i] == s.tokens[i]);
    }
    if s.tokens.len() > 0 {
        assert(tokens[0] == s.tokens[0]);
    }
}

/// Every token of a text ends where its lexeme, read from the token's start,
/// ends: its span is as many lines and columns as its lexeme is long.
pub proof fn lemma_spans_follow_lexemes(file: Seq<char>, source: Seq<char>)
    requires
        tokenize(file, source) is Ok,
    ensures
        spans_follow_lexemes(tokenize(file, source)->Ok_0),
{
    lemma_tokens_from_run(file, source);
    let s = LexState::initial().run(source)->Ok_0;
    let tokens = tokenize(file, source)->Ok_0;
    assert forall|i: int| 0 <= i < tokens.len() implies (#[trigger] tokens[i]).end
        == tokens[i].start.advance_over(tokens[i].lexeme) by {
        if i < s.tokens.len() {
            assert(tokens[i] == s.tokens[i]);
        }
    }
}

/// The lexemes of the tokens of a text, one behind the other, spell the text:
/// no character is lost and none is added.
pub proof fn lemma_lexemes_spell_source(file: Seq<char>, source: Seq<char>)
    requires
        tokenize(file, source) is Ok,
    ensures
        joined(tokenize(file, source)->Ok_0) == source,
{
    lemma_tokens_from_run(file, source);
    let s = LexState::initial().run(source)->Ok_0;
    let tokens = tokenize(file, source)->Ok_0;
    lemma_joined_push(s.tokens, tokens.last());
    assert(joined(s.tokens) + Seq::<char>::empty() =~= joined(s.tokens) + s.partial);
}

/// Every token of a text has a lexeme that fits its kind.
pub proof fn lemma_lexemes_fit_kinds(file: Seq<char>, source: Seq<char>)
    requires
        tokenize(file, source) is Ok,
    ensures
        all_complete(tokenize(file, source)->Ok_0),
{
    lemma_tokens_from_run(file, source);
    let s = LexState::initial().run(source)->Ok_0;
    let tokens = tokenize(file, source)->Ok_0;
    assert forall|i: int| 0 <= i < tokens.len() implies complete(
        (#[trigger] tokens[i]).kind,
        tokens[i].lexeme,
    ) by {
        if i < s.tokens.len() {
            assert(tokens[i] == s.tokens[i]);
        }
    }
}

/// No token of a text shows the flag under which it was assembled: a decimal
/// literal with a point and one without have the same kind, and so have all
/// string literals.
pub proof fn lemma_token_kinds_are_resolved(file: Seq<char>, source: Seq<char>)
    requires
        tokenize(file, source) is Ok,
    ensures
        forall|i: int|
            0 <= i < (tokenize(file, source)->Ok_0).len() ==> (#[trigger] (tokenize(
                file,
                source,
            )->Ok_0)[i]).kind.resolved() == (tokenize(file, source)->Ok_0)[i].kind,
{
    lemma_lexemes_fit_kinds(file, source);
    let tokens = tokenize(file, source)->Ok_0;
    assert forall|i: int| 0 <= i < tokens.len() implies (#[trigger] tokens[i]).kind.resolved()
        == tokens[i].kind by {
        assert(complete(tokens[i].kind, tokens[i].lexeme));
    }
}

} // verus!
