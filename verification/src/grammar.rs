//! Which token sequences are the tokens of a text, said without the machine:
//! a text is tokenized into exactly the one sequence that spells it with
//! well-formed tokens, each lasting as long as it can.

use crate::chars::{identifier_char, literal_terminator, unicode_alphabetic};
use crate::error::LexErrorView;
use crate::invariants::{
    all_complete, complete, contiguous, end_of, joined, lemma_joined_push, lemma_run_reaches,
    spans_follow_lexemes,
};
use crate::laws::{
    closed_by_end_of_file, lemma_lexemes_fit_kinds, lemma_lexemes_spell_source,
    lemma_spans_follow_lexemes, lemma_tokens_are_contiguous,
};
use crate::machine::{assembling, decide, decide_idle, tokenize, Action, Failure, LexState};
use crate::relexing::{
    assembled, behind_token, closes_itself, lemma_run_makes_token, making,
};
use crate::token::{Operator, TokenType, TokenView};
use vstd::prelude::*;

verus! {

/// Whether a token of kind `kind` is over when the character `next` follows
/// it. A token that closes itself is over with its last character, whatever
/// follows. A number lasts up to a terminator (and a decimal number does not
/// end before a point), a comment up to the newline, a division sign up to
/// anything but a second one, whitespace up to anything but a space, an
/// identifier up to a character that identifiers do not hold, and a single
/// equals sign up to anything but a second one.
pub open spec fn ends_before(kind: TokenType, next: char) -> bool {
    match kind {
        TokenType::DecimalLiteral(_) => literal_terminator(next) && next != '.',
        TokenType::BinLiteral => literal_terminator(next),
        TokenType::HexLiteral => literal_terminator(next),
        TokenType::LineComment => next == '\n',
        TokenType::Operator(Operator::Divide) => next != '/',
        TokenType::Whitespace => next != ' ',
        TokenType::Identifier => !identifier_char(next, unicode_alphabetic(next)),
        TokenType::Equals => next != '=',
        _ => true,
    }
}

/// Every token that does not close itself has a token behind it, and is over
/// when the first character of that token comes.
pub open spec fn well_separated(tokens: Seq<TokenView>) -> bool {
    &&& forall|i: int, j: int|
        0 <= i && j == i + 1 && j < tokens.len() && !closes_itself((#[trigger] tokens[i]).kind)
            ==> ends_before(tokens[i].kind, (#[trigger] tokens[j]).lexeme[0])
    &&& tokens.len() > 0 ==> closes_itself(tokens.last().kind)
}

/// Whether `tokens` is a tokenization of `source`: the lexemes spell the
/// text, each fits the kind of its token, each token lasts as long as it can,
/// the spans follow from the lexemes, and the end-of-file token, and only it,
/// closes the sequence.
pub open spec fn tokenization(tokens: Seq<TokenView>, source: Seq<char>) -> bool {
    &&& closed_by_end_of_file(tokens)
    &&& all_complete(tokens)
    &&& well_separated(tokens.drop_last())
    &&& contiguous(tokens)
    &&& spans_follow_lexemes(tokens)
    &&& joined(tokens) == source
}

/// Where the table releases a token, the token is over before the character.
pub proof fn lemma_release_ends_token(kind: TokenType, partial: Seq<char>, c: char)
    requires
        decide(Some(kind), partial, c, unicode_alphabetic(c)) is Release,
        assembling(kind),
    ensures
        !closes_itself(kind.resolved()),
        ends_before(kind.resolved(), c),
{
}

/// Where a finished token is over before a character, the table releases it.
pub proof fn lemma_ended_token_is_released(kind: TokenType, lexeme: Seq<char>, c: char)
    requires
        complete(kind, lexeme),
        !closes_itself(kind),
        ends_before(kind, c),
    ensures
        decide(Some(making(kind, lexeme)), lexeme, c, unicode_alphabetic(c)) is Release,
{
    let n = lexeme.len() as int;
    if kind is BinLiteral || kind is HexLiteral || kind is DecimalLiteral {
        assert(lexeme.last() == lexeme[n - 1]);
    }
}

/// What the finished tokens and the lexeme in the making owe to each other:
/// every finished token that does not close itself is over before the first
/// character behind it.
pub open spec fn parted(s: LexState) -> bool {
    &&& forall|i: int, j: int|
        0 <= i && j == i + 1 && j < s.tokens.len() && !closes_itself((#[trigger] s.tokens[i]).kind)
            ==> ends_before(s.tokens[i].kind, (#[trigger] s.tokens[j]).lexeme[0])
    &&& s.tokens.len() > 0 && !closes_itself(s.tokens.last().kind) ==> s.partial.len() > 0
        && ends_before(s.tokens.last().kind, s.partial[0])
}

/// Finishing a token keeps the finished tokens parted from each other; the
/// new token is parted from what follows by `parted_from_next`.
proof fn lemma_finalize_keeps_parted(s: LexState)
    requires
        parted(s),
        s.kind is Some,
        s.partial.len() > 0,
    ensures
        forall|i: int, j: int|
            0 <= i && j == i + 1 && j < s.finalize().tokens.len() && !closes_itself(
                (#[trigger] s.finalize().tokens[i]).kind,
            ) ==> ends_before(
                s.finalize().tokens[i].kind,
                (#[trigger] s.finalize().tokens[j]).lexeme[0],
            ),
{
    let t = s.finalize();
    assert forall|i: int, j: int|
        0 <= i && j == i + 1 && j < t.tokens.len() && !closes_itself(
            (#[trigger] t.tokens[i]).kind,
        ) implies ends_before(t.tokens[i].kind, (#[trigger] t.tokens[j]).lexeme[0]) by {
        assert(t.tokens[i] == s.tokens[i]);
        if j < s.tokens.len() {
            assert(t.tokens[j] == s.tokens[j]);
        } else {
            assert(s.tokens[i] == s.tokens.last());
            assert(t.tokens[j].lexeme == s.partial);
        }
    }
}

/// The tokens are still parted after any character that is consumed without
/// an error.
pub proof fn lemma_step_keeps_parted(s: LexState, c: char)
    requires
        s.coherent(),
        parted(s),
    ensures
        s.step(c) matches Ok(next) ==> parted(next),
{
    let alphabetic = unicode_alphabetic(c);
    let action = decide(s.kind, s.partial, c, alphabetic);
    match s.step(c) {
        Ok(next) => {
            if action is Release {
                let kind = s.kind->0;
                lemma_release_ends_token(kind, s.partial, c);
                lemma_finalize_keeps_parted(s);
                let from = s.finalize();
                assert(from.tokens.last().kind == kind.resolved());
                match decide_idle(c) {
                    Action::Extend(k) => {
                        let grown = from.extend(c).under(k);
                        assert(grown.partial[0] == c);
                        assert(next == grown);
                        assert(next.tokens == from.tokens);
                    },
                    Action::Emit(k) => {
                        let grown = from.extend(c).under(k);
                        assert(grown.partial[0] == c);
                        assert(grown.partial.len() == 1);
                        lemma_emitted_keeps_parted(grown, kind.resolved());
                    },
                    _ => {},
                }
            } else {
                match action {
                    Action::Extend(k) => {
                        let grown = s.extend(c).under(k);
                        assert(next == grown);
                        if s.partial.len() > 0 {
                            assert(grown.partial[0] == s.partial[0]);
                        }
                    },
                    Action::Emit(k) => {
                        let grown = s.extend(c).under(k);
                        if s.partial.len() > 0 {
                            assert(grown.partial[0] == s.partial[0]);
                            lemma_finalize_keeps_parted(grown);
                        } else {
                            assert(grown.partial.len() == 1);
                            if s.tokens.len() > 0 {
                                lemma_emitted_keeps_parted(grown, s.tokens.last().kind);
                            } else {
                                assert(parted(grown.finalize()));
                            }
                        }
                    },
                    _ => {},
                }
            }
        },
        Err(_) => {},
    }
}

/// A token that is finished by its first character keeps the tokens parted,
/// if the token before it is over before that character.
proof fn lemma_emitted_keeps_parted(grown: LexState, before: TokenType)
    requires
        grown.kind matches Some(kind) && closes_itself(kind),
        grown.partial.len() > 0,
        grown.tokens.len() > 0,
        grown.tokens.last().kind == before,
        closes_itself(before) || ends_before(before, grown.partial[0]),
        forall|i: int, j: int|
            0 <= i && j == i + 1 && j < grown.tokens.len() && !closes_itself(
                (#[trigger] grown.tokens[i]).kind,
            ) ==> ends_before(grown.tokens[i].kind, (#[trigger] grown.tokens[j]).lexeme[0]),
    ensures
        parted(grown.finalize()),
{
    let t = grown.finalize();
    assert forall|i: int, j: int|
        0 <= i && j == i + 1 && j < t.tokens.len() && !closes_itself(
            (#[trigger] t.tokens[i]).kind,
        ) implies ends_before(t.tokens[i].kind, (#[trigger] t.tokens[j]).lexeme[0]) by {
        assert(t.tokens[i] == grown.tokens[i]);
        if j < grown.tokens.len() {
            assert(t.tokens[j] == grown.tokens[j]);
        } else {
            assert(grown.tokens[i] == grown.tokens.last());
            assert(t.tokens[j].lexeme == grown.partial);
        }
    }
}

/// A run from the start of a text, as long as it meets no error, keeps the
/// tokens parted.
pub proof fn lemma_run_keeps_parted(text: Seq<char>)
    ensures
        LexState::initial().run(text) matches Ok(s) ==> parted(s),
    decreases text.len(),
{
    if text.len() > 0 {
        lemma_run_keeps_parted(text.drop_last());
        lemma_run_reaches(text.drop_last());
        match LexState::initial().run(text.drop_last()) {
            Ok(before) => {
                lemma_step_keeps_parted(before, text.last());
            },
            Err(_) => {},
        }
    }
}

/// The tokens of a text are a tokenization of it.
pub proof fn lemma_tokens_are_a_tokenization(file: Seq<char>, source: Seq<char>)
    requires
        tokenize(file, source) is Ok,
    ensures
        tokenization(tokenize(file, source)->Ok_0, source),
{
    let tokens = tokenize(file, source)->Ok_0;
    lemma_tokens_are_contiguous(file, source);
    lemma_spans_follow_lexemes(file, source);
    lemma_lexemes_spell_source(file, source);
    lemma_lexemes_fit_kinds(file, source);
    lemma_run_reaches(source);
    lemma_run_keeps_parted(source);
    let s = LexState::initial().run(source)->Ok_0;
    assert(s.partial =~= Seq::empty());
    let body = tokens.drop_last();
    assert(body =~= s.tokens);
    if body.len() > 0 {
        assert(closes_itself(body.last().kind));
    }
}

/// The state between two tokens, behind the finished tokens `done`.
pub open spec fn idle_behind(done: Seq<TokenView>) -> LexState {
    LexState {
        tokens: done,
        partial: Seq::empty(),
        kind: None,
        start: end_of(done),
        end: end_of(done),
    }
}

/// The state behind the text that the tokens `done` spell: all of them are
/// finished but the last, which is still in the making unless it closes
/// itself.
pub open spec fn behind(done: Seq<TokenView>) -> LexState {
    if done.len() == 0 {
        LexState::initial()
    } else {
        behind_token(idle_behind(done.drop_last()), done.last().kind, done.last().lexeme)
    }
}

/// Consuming one text and then another is consuming the two in a row.
pub proof fn lemma_run_concat(s: LexState, a: Seq<char>, b: Seq<char>)
    ensures
        s.run(a + b) == match s.run(a) {
            Ok(middle) => middle.run(b),
            Err(failure) => Err(failure),
        },
    decreases b.len(),
{
    if b.len() == 0 {
        assert(a + b =~= a);
    } else {
        assert((a + b).drop_last() =~= a + b.drop_last());
        lemma_run_concat(s, a, b.drop_last());
    }
}

/// Where the first character of a text releases the token in the making,
/// the run over the text is the run from the state in which that token is
/// finished.
pub proof fn lemma_run_after_release(s: LexState, text: Seq<char>)
    requires
        text.len() > 0,
        decide(s.kind, s.partial, text[0], unicode_alphabetic(text[0])) is Release,
    ensures
        s.run(text) == s.finalize().run(text),
    decreases text.len(),
{
    if text.len() == 1 {
        assert(text.drop_last() =~= Seq::empty());
        assert(s.run(text.drop_last()) == Ok::<LexState, Failure>(s));
        assert(s.finalize().run(text.drop_last()) == Ok::<LexState, Failure>(s.finalize()));
        assert(text.last() == text[0]);
    } else {
        assert(text.drop_last()[0] == text[0]);
        lemma_run_after_release(s, text.drop_last());
    }
}

/// The tokens of a tokenization, one after the other, are what a run over
/// the text that they spell makes.
pub proof fn lemma_run_makes_tokens(body: Seq<TokenView>, k: int)
    requires
        0 <= k <= body.len(),
        all_complete(body),
        forall|i: int| 0 <= i < body.len() ==> (#[trigger] body[i]).kind != TokenType::EndOfFile,
        contiguous(body),
        spans_follow_lexemes(body),
        forall|i: int, j: int|
            0 <= i && j == i + 1 && j < body.len() && !closes_itself((#[trigger] body[i]).kind)
                ==> ends_before(body[i].kind, (#[trigger] body[j]).lexeme[0]),
    ensures
        LexState::initial().run(joined(body.take(k))) == Ok::<LexState, Failure>(
            behind(body.take(k)),
        ),
    decreases k,
{
    let done = body.take(k);
    if k == 0 {
        assert(joined(done) =~= Seq::empty());
    } else {
        let before = body.take(k - 1);
        let token = body[k - 1];
        assert(done.drop_last() =~= before);
        assert(done.last() == token);
        assert(before.push(token) =~= done);
        lemma_joined_push(before, token);
        lemma_run_makes_tokens(body, k - 1);
        lemma_run_concat(LexState::initial(), joined(before), token.lexeme);
        let from = idle_behind(before);
        assert(complete(token.kind, token.lexeme));
        lemma_run_makes_token(from, token.kind, token.lexeme);
        if before.len() == 0 {
            assert(before =~= Seq::empty());
            assert(behind(before) == from);
        } else {
            let last = before.last();
            assert(last == body[k - 2]);
            assert(complete(last.kind, last.lexeme));
            let earlier = idle_behind(before.drop_last());
            if k >= 3 {
                assert(before.drop_last().last() == body[k - 3]);
            }
            assert(last.start == earlier.start);
            assert(last.end == last.start.advance_over(last.lexeme));
            assert(last.kind.resolved() == last.kind);
            assert(assembled(earlier, making(last.kind, last.lexeme), last.lexeme).finalize()
                == from) by {
                assert(before.drop_last().push(last) =~= before);
            }
            assert(assembled(earlier, last.kind, last.lexeme).finalize() == from) by {
                assert(before.drop_last().push(last) =~= before);
            }
            if closes_itself(last.kind) {
                assert(behind(before) == from);
            } else {
                let s = behind(before);
                assert(token.lexeme.len() > 0);
                lemma_ended_token_is_released(last.kind, last.lexeme, token.lexeme[0]);
                lemma_run_after_release(s, token.lexeme);
                assert(s.finalize() == from);
            }
        }
    }
}

/// A tokenization of a text is what the text is tokenized into: the text has
/// no lexical error, and its tokens are the tokens of the tokenization.
pub proof fn lemma_tokenization_is_found(
    file: Seq<char>,
    tokens: Seq<TokenView>,
    source: Seq<char>,
)
    requires
        tokenization(tokens, source),
    ensures
        tokenize(file, source) == Ok::<Seq<TokenView>, LexErrorView>(tokens),
{
    let body = tokens.drop_last();
    let n = body.len() as int;
    let last = tokens.last();
    assert(body.push(last) =~= tokens);
    lemma_joined_push(body, last);
    assert(complete(last.kind, last.lexeme));
    assert(joined(body) =~= source);
    assert forall|i: int| 0 <= i < body.len() implies complete(
        (#[trigger] body[i]).kind,
        body[i].lexeme,
    ) && body[i].kind != TokenType::EndOfFile && body[i].end == body[i].start.advance_over(
        body[i].lexeme,
    ) by {
        assert(body[i] == tokens[i]);
    }
    assert forall|i: int, j: int| 0 <= i && j == i + 1 && j < body.len() implies (
    #[trigger] body[i]).end == (#[trigger] body[j]).start by {
        assert(body[i] == tokens[i]);
        assert(body[j] == tokens[j]);
    }
    if n > 0 {
        assert(body[0] == tokens[0]);
    }
    lemma_run_makes_tokens(body, n);
    assert(body.take(n) =~= body);
    let s = behind(body);
    assert(s == idle_behind(body)) by {
        if n > 0 {
            let before = body.drop_last();
            let end = body.last();
            assert(end == body[n - 1]);
            assert(closes_itself(end.kind));
            if n >= 2 {
                assert(before.last() == body[n - 2]);
            }
            assert(end.start == end_of(before));
            assert(end.end == end.start.advance_over(end.lexeme));
            let made = assembled(idle_behind(before), end.kind, end.lexeme).finalize();
            assert(made.tokens =~= body);
            assert(made.partial =~= Seq::empty());
        } else {
            assert(body =~= Seq::empty());
        }
    }
    assert(tokens[n] == last);
    if n > 0 {
        assert(tokens[n - 1] == body[n - 1]);
    }
    assert(last.start == end_of(body));
    assert(last.end == last.start.advance_over(last.lexeme));
    assert(last.lexeme =~= Seq::empty());
    assert(s.finish() matches Ok(found) && found =~= tokens);
}

/// A text has one tokenization at most.
pub proof fn lemma_tokenization_is_unique(
    first: Seq<TokenView>,
    second: Seq<TokenView>,
    source: Seq<char>,
)
    requires
        tokenization(first, source),
        tokenization(second, source),
    ensures
        first == second,
{
    lemma_tokenization_is_found(Seq::empty(), first, source);
    lemma_tokenization_is_found(Seq::empty(), second, source);
}

/// A text is tokenized without an error exactly when it has a
/// tokenization.
pub proof fn lemma_success_means_tokenization(file: Seq<char>, source: Seq<char>)
    ensures
        tokenize(file, source) is Ok <==> exists|tokens: Seq<TokenView>|
            tokenization(tokens, source),
{
    if tokenize(file, source) is Ok {
        lemma_tokens_are_a_tokenization(file, source);
    }
    if exists|tokens: Seq<TokenView>| tokenization(tokens, source) {
        let tokens = choose|tokens: Seq<TokenView>| tokenization(tokens, source);
        lemma_tokenization_is_found(file, tokens, source);
    }
}

} // verus!
