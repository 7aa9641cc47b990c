//! What every state of a run has in common.

use crate::chars::unicode_alphabetic;
use crate::machine::{decide, decide_idle, in_family, Action, LexState};
use crate::token::{Operator, Position, TokenType, TokenView};
use vstd::prelude::*;

verus! {

/// A state and its lexeme still agree after any character that is consumed
/// without an error.
pub proof fn lemma_step_keeps_coherent(s: LexState, c: char)
    requires
        s.coherent(),
    ensures
        s.step(c) matches Ok(next) ==> next.coherent(),
{
    let alphabetic = unicode_alphabetic(c);
    let action = decide(s.kind, s.partial, c, alphabetic);
    if action is Release {
        lemma_apply_keeps_coherent(s.finalize(), c, alphabetic);
    } else {
        lemma_apply_keeps_coherent(s, c, alphabetic);
    }
}

/// The same for one look into the table that does not release.
proof fn lemma_apply_keeps_coherent(s: LexState, c: char, alphabetic: bool)
    requires
        s.coherent(),
        alphabetic == unicode_alphabetic(c),
        !(decide(s.kind, s.partial, c, alphabetic) is Release),
    ensures
        s.apply(decide(s.kind, s.partial, c, alphabetic), c) matches Ok(next) ==> next.coherent(),
{
    let action = decide(s.kind, s.partial, c, alphabetic);
    let grown = s.partial.push(c);
    match action {
        Action::Extend(kind) => {
            assert(grown[grown.len() - 1] == c);
            assert(forall|i: int| 0 <= i < s.partial.len() ==> grown[i] == s.partial[i]);
            match kind {
                TokenType::DecimalLiteral(has_point) => {
                    if s.kind is None {
                    } else {
                        if c == '.' {
                            assert(!s.partial.contains('.'));
                            assert(grown.contains('.'));
                        } else {
                            if s.partial.contains('.') {
                                let k = choose|k: int|
                                    0 <= k < s.partial.len() && s.partial[k] == '.';
                                assert(grown[k] == '.');
                            }
                            if grown.contains('.') {
                                let k = choose|k: int| 0 <= k < grown.len() && grown[k] == '.';
                                assert(s.partial[k] == '.');
                            }
                        }
                    }
                    assert(in_family(kind, grown));
                },
                _ => {
                    assert(in_family(kind, grown));
                },
            }
        },
        Action::Emit(kind) => {},
        Action::Release => {},
        Action::Reject(_, _) => {},
    }
}

/// Consuming a character moves the place of the next character on by one
/// line or by one column, never by more.
pub proof fn lemma_step_moves_one(s: LexState, c: char)
    ensures
        s.step(c) matches Ok(next) ==> next.end.line + next.end.column <= s.end.line
            + s.end.column + 1,
{
}

/// A run that has met an error on a prefix of the text stops there: the whole
/// text comes to the same error.
pub proof fn lemma_run_stops_at_error(s: LexState, text: Seq<char>, n: int)
    requires
        0 <= n <= text.len(),
        s.run(text.take(n)) is Err,
    ensures
        s.run(text) == s.run(text.take(n)),
    decreases text.len() - n,
{
    if n == text.len() {
        assert(text.take(n) =~= text);
    } else {
        assert(text.take(n + 1).drop_last() =~= text.take(n));
        lemma_run_stops_at_error(s, text, n + 1);
    }
}

/// One more character of the text is one more step of the run.
pub proof fn lemma_run_next(s: LexState, text: Seq<char>, n: int)
    requires
        0 <= n < text.len(),
    ensures
        s.run(text.take(n + 1)) == match s.run(text.take(n)) {
            Ok(before) => before.step(text[n]),
            Err(failure) => Err(failure),
        },
{
    assert(text.take(n + 1).drop_last() =~= text.take(n));
}

/// The place behind a text with one more character is one character behind
/// the place behind the text.
pub proof fn lemma_advance_over_push(p: Position, text: Seq<char>, c: char)
    ensures
        p.advance_over(text.push(c)) == p.advance_over(text).advance(c),
{
    assert(text.push(c).drop_last() =~= text);
}

/// The place behind two texts in a row is the place behind the second, begun
/// where the first ends.
pub proof fn lemma_advance_over_concat(p: Position, a: Seq<char>, b: Seq<char>)
    ensures
        p.advance_over(a + b) == p.advance_over(a).advance_over(b),
    decreases b.len(),
{
    if b.len() == 0 {
        assert(a + b =~= a);
    } else {
        assert((a + b).drop_last() =~= a + b.drop_last());
        lemma_advance_over_concat(p, a, b.drop_last());
    }
}

/// Each token follows on the one before: the first starts where the text
/// starts, and every other starts where the one before it ends.
pub open spec fn contiguous(tokens: Seq<TokenView>) -> bool {
    &&& tokens.len() > 0 ==> tokens[0].start == Position::origin()
    &&& forall|i: int, j: int|
        0 <= i && j == i + 1 && j < tokens.len() ==> (#[trigger] tokens[i]).end
            == (#[trigger] tokens[j]).start
}

/// Each token ends where its lexeme, read from its start, ends.
pub open spec fn spans_follow_lexemes(tokens: Seq<TokenView>) -> bool {
    forall|i: int|
        0 <= i < tokens.len() ==> (#[trigger] tokens[i]).end == tokens[i].start.advance_over(
            tokens[i].lexeme,
        )
}

/// The place where the text behind the tokens goes on.
pub open spec fn end_of(tokens: Seq<TokenView>) -> Position {
    if tokens.len() == 0 {
        Position::origin()
    } else {
        tokens.last().end
    }
}

/// The finished tokens and the token in the making lie in the text one
/// behind the other, without a gap and without an overlap.
pub open spec fn placed(s: LexState) -> bool {
    &&& contiguous(s.tokens)
    &&& spans_follow_lexemes(s.tokens)
    &&& s.start == end_of(s.tokens)
    &&& s.end == s.start.advance_over(s.partial)
    &&& forall|i: int| 0 <= i < s.tokens.len() ==> (#[trigger] s.tokens[i]).kind != TokenType::EndOfFile
}

/// Finishing a token keeps the tokens in place.
proof fn lemma_finalize_keeps_placed(s: LexState)
    requires
        placed(s),
        s.kind is Some,
        s.kind != Some(TokenType::EndOfFile),
    ensures
        placed(s.finalize()),
{
    let t = s.finalize();
    assert(t.partial =~= Seq::empty());
    assert forall|i: int, j: int| 0 <= i && j == i + 1 && j < t.tokens.len() implies (
    #[trigger] t.tokens[i]).end == (#[trigger] t.tokens[j]).start by {
        if j < s.tokens.len() {
            assert(t.tokens[i] == s.tokens[i]);
            assert(t.tokens[j] == s.tokens[j]);
        } else {
            if i >= 0 && s.tokens.len() > 0 {
                assert(t.tokens[i] == s.tokens[i]);
            }
        }
    }
    assert forall|i: int| 0 <= i < t.tokens.len() implies (#[trigger] t.tokens[i]).end
        == t.tokens[i].start.advance_over(t.tokens[i].lexeme) && t.tokens[i].kind
        != TokenType::EndOfFile by {
        if i < s.tokens.len() {
            assert(t.tokens[i] == s.tokens[i]);
        }
    }
}

/// Taking a character in keeps the tokens in place.
proof fn lemma_extend_keeps_placed(s: LexState, c: char)
    requires
        placed(s),
    ensures
        placed(s.extend(c)),
{
    lemma_advance_over_push(s.start, s.partial, c);
}

/// The tokens are still in place after any character that is consumed
/// without an error.
pub proof fn lemma_step_keeps_placed(s: LexState, c: char)
    requires
        s.coherent(),
        placed(s),
    ensures
        s.step(c) matches Ok(next) ==> placed(next),
{
    let alphabetic = unicode_alphabetic(c);
    let action = decide(s.kind, s.partial, c, alphabetic);
    let from = if action is Release {
        lemma_finalize_keeps_placed(s);
        s.finalize()
    } else {
        s
    };
    let now = if action is Release {
        decide_idle(c)
    } else {
        action
    };
    lemma_extend_keeps_placed(from, c);
    match now {
        Action::Extend(kind) => {
            assert(placed(from.extend(c).under(kind)));
        },
        Action::Emit(kind) => {
            assert(placed(from.extend(c).under(kind)));
            lemma_finalize_keeps_placed(from.extend(c).under(kind));
        },
        _ => {},
    }
}

/// Whether `lexeme` can be the lexeme of a finished token of kind `kind`.
///
/// A literal has at least one digit and does not end in its decimal point; a
/// string has its two quotes and none between them; an operator, a bracket
/// and a newline are spelled in one way only; the end-of-file token is empty.
/// The flag of a decimal or a string kind is `false`, whatever the lexeme
/// holds.
pub open spec fn complete(kind: TokenType, lexeme: Seq<char>) -> bool {
    match kind {
        TokenType::DecimalLiteral(flag) => {
            &&& !flag
            &&& in_family(TokenType::DecimalLiteral(lexeme.contains('.')), lexeme)
            &&& lexeme.last() != '.'
        },
        TokenType::BinLiteral => in_family(kind, lexeme) && lexeme.len() >= 3,
        TokenType::HexLiteral => in_family(kind, lexeme) && lexeme.len() >= 3,
        TokenType::StringLiteral(flag) => {
            &&& !flag
            &&& lexeme.len() >= 2
            &&& lexeme.last() == '"'
            &&& in_family(kind, lexeme.drop_last())
        },
        TokenType::Operator(Operator::Plus) => lexeme =~= seq!['+'],
        TokenType::Operator(Operator::Minus) => lexeme =~= seq!['-'],
        TokenType::Operator(Operator::Multiply) => lexeme =~= seq!['*'],
        TokenType::Operator(Operator::Divide) => lexeme =~= seq!['/'],
        TokenType::Operator(Operator::Equals) => lexeme =~= seq!['=', '='],
        TokenType::LineComment => in_family(kind, lexeme),
        TokenType::LeftParen => lexeme =~= seq!['('],
        TokenType::RightParen => lexeme =~= seq![')'],
        TokenType::LeftBrace => lexeme =~= seq!['{'],
        TokenType::RightBrace => lexeme =~= seq!['}'],
        TokenType::Equals => lexeme =~= seq!['='],
        TokenType::Identifier => in_family(kind, lexeme),
        TokenType::Whitespace => in_family(kind, lexeme),
        TokenType::Newline => lexeme =~= seq!['\n'],
        TokenType::EndOfFile => lexeme.len() == 0,
    }
}

/// Every token has a lexeme that fits its kind.
pub open spec fn all_complete(tokens: Seq<TokenView>) -> bool {
    forall|i: int| 0 <= i < tokens.len() ==> complete((#[trigger] tokens[i]).kind, tokens[i].lexeme)
}

/// The lexemes of the tokens, one behind the other.
pub open spec fn joined(tokens: Seq<TokenView>) -> Seq<char>
    decreases tokens.len(),
{
    if tokens.len() == 0 {
        Seq::empty()
    } else {
        joined(tokens.drop_last()) + tokens.last().lexeme
    }
}

/// One more token adds its lexeme to the end.
pub proof fn lemma_joined_push(tokens: Seq<TokenView>, token: TokenView)
    ensures
        joined(tokens.push(token)) == joined(tokens) + token.lexeme,
{
    assert(tokens.push(token).drop_last() =~= tokens);
}

/// A token that is finished has a lexeme that fits its kind.
proof fn lemma_finalize_keeps_complete(s: LexState)
    requires
        all_complete(s.tokens),
        s.kind matches Some(kind) && complete(kind.resolved(), s.partial),
    ensures
        all_complete(s.finalize().tokens),
{
    let t = s.finalize();
    assert forall|i: int| 0 <= i < t.tokens.len() implies complete(
        (#[trigger] t.tokens[i]).kind,
        t.tokens[i].lexeme,
    ) by {
        if i < s.tokens.len() {
            assert(t.tokens[i] == s.tokens[i]);
        }
    }
}

/// The finished tokens all fit their kinds after any character that is
/// consumed without an error.
pub proof fn lemma_step_keeps_complete(s: LexState, c: char)
    requires
        s.coherent(),
        all_complete(s.tokens),
    ensures
        s.step(c) matches Ok(next) ==> all_complete(next.tokens),
{
    let alphabetic = unicode_alphabetic(c);
    let action = decide(s.kind, s.partial, c, alphabetic);
    let from = if action is Release {
        lemma_finalize_keeps_complete(s);
        s.finalize()
    } else {
        s
    };
    let now = if action is Release {
        decide_idle(c)
    } else {
        action
    };
    match now {
        Action::Emit(kind) => {
            let grown = from.partial.push(c);
            assert(grown.drop_last() =~= from.partial);
            assert(grown.last() == c);
            assert(complete(kind.resolved(), grown));
            lemma_finalize_keeps_complete(from.extend(c).under(kind));
        },
        _ => {},
    }
}

/// The finished tokens and the lexeme in the making spell the text again
/// after any character that is consumed without an error.
pub proof fn lemma_step_keeps_spelling(s: LexState, c: char, text: Seq<char>)
    requires
        s.coherent(),
        joined(s.tokens) + s.partial == text,
    ensures
        s.step(c) matches Ok(next) ==> joined(next.tokens) + next.partial == text.push(c),
{
    let alphabetic = unicode_alphabetic(c);
    let action = decide(s.kind, s.partial, c, alphabetic);
    let from = if action is Release {
        s.finalize()
    } else {
        s
    };
    let now = if action is Release {
        decide_idle(c)
    } else {
        action
    };
    if action is Release {
        lemma_joined_push(s.tokens, s.finalize().tokens.last());
        assert(joined(from.tokens) + from.partial =~= text);
    }
    match now {
        Action::Extend(kind) => {
            assert(joined(from.tokens) + from.partial.push(c) =~= text.push(c));
        },
        Action::Emit(kind) => {
            let done = from.extend(c).under(kind).finalize();
            lemma_joined_push(from.tokens, done.tokens.last());
            assert(joined(done.tokens) + done.partial =~= text.push(c));
        },
        _ => {},
    }
}

/// What holds of the state that a run from the start of a text has reached.
pub open spec fn reached(s: LexState, text: Seq<char>) -> bool {
    &&& s.coherent()
    &&& placed(s)
    &&& all_complete(s.tokens)
    &&& joined(s.tokens) + s.partial == text
    &&& s.start == Position::origin().advance_over(joined(s.tokens))
    &&& s.end == Position::origin().advance_over(text)
}

/// The token in the making starts where the finished tokens, read from the
/// start of the text, end; this is still so after any character that is
/// consumed without an error.
pub proof fn lemma_step_keeps_located(s: LexState, c: char)
    requires
        s.coherent(),
        s.start == Position::origin().advance_over(joined(s.tokens)),
        s.end == s.start.advance_over(s.partial),
    ensures
        s.step(c) matches Ok(next) ==> next.start == Position::origin().advance_over(
            joined(next.tokens),
        ),
{
    let alphabetic = unicode_alphabetic(c);
    let action = decide(s.kind, s.partial, c, alphabetic);
    let from = if action is Release {
        s.finalize()
    } else {
        s
    };
    let now = if action is Release {
        decide_idle(c)
    } else {
        action
    };
    if action is Release {
        lemma_joined_push(s.tokens, s.finalize().tokens.last());
        lemma_advance_over_concat(Position::origin(), joined(s.tokens), s.partial);
    }
    match now {
        Action::Emit(kind) => {
            let full = from.extend(c).under(kind);
            lemma_advance_over_push(from.start, from.partial, c);
            lemma_joined_push(full.tokens, full.finalize().tokens.last());
            lemma_advance_over_concat(Position::origin(), joined(full.tokens), full.partial);
        },
        _ => {},
    }
}

/// A run from the start of a text, as long as it meets no error, keeps the
/// state coherent, the tokens in place and fitting their kinds, and the
/// lexemes spelling the text consumed.
pub proof fn lemma_run_reaches(text: Seq<char>)
    ensures
        LexState::initial().run(text) matches Ok(s) ==> reached(s, text),
    decreases text.len(),
{
    if text.len() == 0 {
        assert(joined(LexState::initial().tokens) + LexState::initial().partial =~= text);
        assert(joined(LexState::initial().tokens) =~= Seq::empty());
    } else {
        lemma_run_reaches(text.drop_last());
        match LexState::initial().run(text.drop_last()) {
            Ok(before) => {
                let c = text.last();
                lemma_step_keeps_coherent(before, c);
                lemma_step_keeps_placed(before, c);
                lemma_step_keeps_complete(before, c);
                lemma_step_keeps_spelling(before, c, text.drop_last());
                lemma_step_keeps_located(before, c);
                assert(text.drop_last().push(c) =~= text);
                match before.step(c) {
                    Ok(next) => {
                        lemma_advance_over_concat(
                            Position::origin(),
                            joined(next.tokens),
                            next.partial,
                        );
                    },
                    Err(_) => {},
                }
            },
            Err(_) => {},
        }
    }
}

} // verus!
