//! Where an error lies: the span of every error can be shown in the text
//! that it was found in.

use crate::invariants::{joined, lemma_run_reaches};
use crate::machine::{tokenize, LexState};
use crate::text::{ended_lines, lines, open_line};
use crate::token::Position;
use vstd::prelude::*;

verus! {

/// The place behind a text lies as many lines down as the text has newlines.
/// If it has none, the place lies as many columns on as the text is long;
/// else its column is the length of what stands behind the last newline.
pub proof fn lemma_advance_counts_lines(p: Position, text: Seq<char>)
    ensures
        p.advance_over(text).line == p.line + ended_lines(text).len(),
        ended_lines(text).len() == 0 ==> p.advance_over(text).column == p.column + text.len(),
        ended_lines(text).len() > 0 ==> p.advance_over(text).column == open_line(text).len(),
        ended_lines(text).len() == 0 ==> open_line(text).len() == text.len(),
    decreases text.len(),
{
    if text.len() > 0 {
        lemma_advance_counts_lines(p, text.drop_last());
    }
}

/// A text has no fewer newlines than any of its prefixes.
pub proof fn lemma_ended_lines_grow(text: Seq<char>, n: int)
    requires
        0 <= n <= text.len(),
    ensures
        ended_lines(text.take(n)).len() <= ended_lines(text).len(),
    decreases text.len(),
{
    if n == text.len() {
        assert(text.take(n) =~= text);
    } else {
        assert(text.drop_last().take(n) =~= text.take(n));
        lemma_ended_lines_grow(text.drop_last(), n);
    }
}

/// The line in which a character of the text stands is a line of the text.
pub proof fn lemma_text_has_the_line(text: Seq<char>, n: int)
    requires
        0 <= n < text.len(),
    ensures
        ended_lines(text.take(n)).len() + 1 <= lines(text).len(),
{
    assert(text.drop_last().take(n) =~= text.take(n));
    lemma_ended_lines_grow(text.drop_last(), n);
}

/// An error has the span of the token that was in the making when the
/// character came, or, where that token was finished first, the empty span
/// behind it.
pub proof fn lemma_step_failure_span(s: LexState, c: char)
    ensures
        s.step(c) matches Err(failure) ==> failure.end == s.end && (failure.start == s.start
            || failure.start == s.end),
{
}

/// The character at which a run has stopped: the run got as far as it
/// without an error and met the error there.
pub proof fn lemma_first_error(text: Seq<char>) -> (n: int)
    requires
        LexState::initial().run(text) is Err,
    ensures
        0 <= n < text.len(),
        LexState::initial().run(text.take(n)) matches Ok(s) && s.step(text[n])
            == LexState::initial().run(text),
    decreases text.len(),
{
    let before = text.drop_last();
    if LexState::initial().run(before) is Err {
        let n = lemma_first_error(before);
        assert(before.take(n) =~= text.take(n));
        n
    } else {
        assert(text.take(text.len() - 1) =~= before);
        text.len() - 1
    }
}

/// Every error of a text can be shown: its span starts in line 1 or below
/// and does not run backwards, and a span in one line lies in a line of the
/// text.
pub proof fn lemma_errors_are_renderable(file: Seq<char>, source: Seq<char>)
    requires
        tokenize(file, source) is Err,
    ensures
        (tokenize(file, source)->Err_0).renderable(),
{
    let error = tokenize(file, source)->Err_0;
    let origin = Position::origin();
    match LexState::initial().run(source) {
        Ok(s) => {
            lemma_run_reaches(source);
            lemma_advance_counts_lines(origin, source);
            lemma_advance_counts_lines(origin, joined(s.tokens));
            lemma_advance_counts_lines(s.start, s.partial);
            assert(s.partial.len() > 0);
            assert(source.last() == s.partial.last());
            if error.on_one_line() {
                assert(s.partial.last() != '\n');
                assert(open_line(source).len() > 0);
            }
        },
        Err(failure) => {
            let n = lemma_first_error(source);
            let s = LexState::initial().run(source.take(n))->Ok_0;
            lemma_run_reaches(source.take(n));
            lemma_step_failure_span(s, source[n]);
            lemma_advance_counts_lines(origin, source.take(n));
            lemma_advance_counts_lines(origin, joined(s.tokens));
            lemma_advance_counts_lines(s.start, s.partial);
            lemma_text_has_the_line(source, n);
        },
    }
}

} // verus!
