//! A token read again on its own gives the same token.

use crate::chars::unicode_alphabetic;
use crate::error::LexErrorView;
use crate::invariants::{complete, lemma_advance_over_push};
use crate::laws::lemma_lexemes_fit_kinds;
use crate::machine::{assembling, decide, decide_idle, in_family, tokenize, Action, Failure, LexState};
use crate::token::{Operator, Position, TokenType, TokenView};
use vstd::prelude::*;

verus! {

/// The kinds whose tokens are finished by their own last character. A token
/// of any other kind lasts until a character that does not belong to it.
pub open spec fn closes_itself(kind: TokenType) -> bool {
    match kind {
        TokenType::StringLiteral(_) => true,
        TokenType::Operator(op) => op != Operator::Divide,
        TokenType::LeftParen => true,
        TokenType::RightParen => true,
        TokenType::LeftBrace => true,
        TokenType::RightBrace => true,
        TokenType::Newline => true,
        TokenType::EndOfFile => true,
        _ => false,
    }
}

/// The kind under which the first `n` characters of a lexeme of kind `kind`
/// are assembled: a binary or hexadecimal literal starts as a decimal one, a
/// comment as a division sign, and a decimal literal has its point or not.
pub open spec fn kind_at(kind: TokenType, lexeme: Seq<char>, n: int) -> TokenType {
    match kind {
        TokenType::BinLiteral | TokenType::HexLiteral => if n == 1 {
            TokenType::DecimalLiteral(false)
        } else {
            kind
        },
        TokenType::LineComment => if n == 1 {
            TokenType::Operator(Operator::Divide)
        } else {
            kind
        },
        TokenType::DecimalLiteral(_) => TokenType::DecimalLiteral(lexeme.take(n).contains('.')),
        _ => kind,
    }
}

/// The kind under which the whole lexeme of a finished token of kind `kind`
/// is assembled: a decimal literal is assembled with the flag that says
/// whether it holds a point.
pub open spec fn making(kind: TokenType, lexeme: Seq<char>) -> TokenType {
    match kind {
        TokenType::DecimalLiteral(_) => TokenType::DecimalLiteral(lexeme.contains('.')),
        _ => kind,
    }
}

/// Whether the state lies between two tokens.
pub open spec fn idle(s: LexState) -> bool {
    s.kind is None && s.partial.len() == 0 && s.start == s.end
}

/// The state in which `partial`, which starts where the idle state `from`
/// stands, is being assembled under `kind`.
pub open spec fn assembled(from: LexState, kind: TokenType, partial: Seq<char>) -> LexState {
    LexState {
        tokens: from.tokens,
        partial,
        kind: Some(kind),
        start: from.start,
        end: from.start.advance_over(partial),
    }
}

/// The state behind a token of kind `kind` with the lexeme `lexeme` that
/// starts where the idle state `from` stands: a token that closes itself is
/// finished, any other is in the making until the next character comes.
pub open spec fn behind_token(from: LexState, kind: TokenType, lexeme: Seq<char>) -> LexState {
    if closes_itself(kind) {
        assembled(from, kind, lexeme).finalize()
    } else {
        assembled(from, making(kind, lexeme), lexeme)
    }
}

/// A run over the first `n` characters of a lexeme in the making, begun
/// between two tokens, assembles just these characters.
pub proof fn lemma_run_assembles(from: LexState, kind: TokenType, lexeme: Seq<char>, n: int)
    requires
        idle(from),
        assembling(kind),
        in_family(kind, lexeme),
        1 <= n <= lexeme.len(),
    ensures
        from.run(lexeme.take(n)) == Ok::<LexState, Failure>(
            assembled(from, kind_at(kind, lexeme, n), lexeme.take(n)),
        ),
    decreases n,
{
    let c = lexeme[n - 1];
    let text = lexeme.take(n);
    let before = lexeme.take(n - 1);
    assert(text.drop_last() =~= before);
    assert(text.last() == c);
    assert(before.push(c) =~= text);
    lemma_advance_over_push(from.start, before, c);
    if n == 1 {
        assert(before =~= Seq::empty());
        assert(from.partial =~= Seq::empty());
        assert(from.run(before) == Ok::<LexState, Failure>(from));
        assert(text[0] == c);
        if kind is DecimalLiteral {
            assert(!text.contains('.'));
        }
        assert(decide_idle(c) == Action::Extend(kind_at(kind, lexeme, 1)));
        assert(from.step(c) == Ok::<LexState, Failure>(
            assembled(from, kind_at(kind, lexeme, 1), text),
        ));
    } else {
        lemma_run_assembles(from, kind, lexeme, n - 1);
        let s = assembled(from, kind_at(kind, lexeme, n - 1), before);
        assert(before.len() == n - 1);
        assert(before[0] == lexeme[0]);
        if kind is DecimalLiteral {
            assert(before.last() == lexeme[n - 2]);
            if c == '.' {
                if before.contains('.') {
                    let k = choose|k: int| 0 <= k < before.len() && before[k] == '.';
                    assert(lexeme[k] == '.');
                    assert(lexeme[n - 1] == '.');
                }
                assert(text[n - 1] == '.');
                assert(text.contains('.'));
            } else {
                if before.contains('.') {
                    let k = choose|k: int| 0 <= k < before.len() && before[k] == '.';
                    assert(text[k] == '.');
                }
                if text.contains('.') {
                    let k = choose|k: int| 0 <= k < text.len() && text[k] == '.';
                    assert(before[k] == '.');
                }
            }
        }
        assert(decide(s.kind, s.partial, c, unicode_alphabetic(c)) == Action::Extend(
            kind_at(kind, lexeme, n),
        ));
        assert(s.step(c) == Ok::<LexState, Failure>(
            assembled(from, kind_at(kind, lexeme, n), text),
        ));
    }
}

/// A run over the lexeme of a finished token, begun between two tokens,
/// makes that token: finished, if the token closes itself, and else in the
/// making.
pub proof fn lemma_run_makes_token(from: LexState, kind: TokenType, lexeme: Seq<char>)
    requires
        idle(from),
        complete(kind, lexeme),
        kind != TokenType::EndOfFile,
    ensures
        from.run(lexeme) == Ok::<LexState, Failure>(behind_token(from, kind, lexeme)),
{
    let n = lexeme.len() as int;
    if !closes_itself(kind) {
        let state_kind = making(kind, lexeme);
        assert(lexeme.take(n) =~= lexeme);
        lemma_run_assembles(from, state_kind, lexeme, n);
        assert(kind_at(state_kind, lexeme, n) == state_kind);
    } else {
        let c = lexeme.last();
        let before = lexeme.drop_last();
        assert(before.push(c) =~= lexeme);
        lemma_advance_over_push(from.start, before, c);
        let s = if before.len() == 0 {
            assert(from.partial =~= Seq::empty());
            assert(from.run(before) == Ok::<LexState, Failure>(from));
            from
        } else {
            let head = if kind is StringLiteral {
                TokenType::StringLiteral(false)
            } else {
                TokenType::Equals
            };
            assert(before.take(before.len() as int) =~= before);
            assert(in_family(head, before));
            lemma_run_assembles(from, head, before, before.len() as int);
            assembled(from, head, before)
        };
        assert(from.run(before) == Ok::<LexState, Failure>(s));
        assert(decide(s.kind, s.partial, c, unicode_alphabetic(c)) == Action::Emit(kind));
        assert(s.step(c) == Ok::<LexState, Failure>(behind_token(from, kind, lexeme)));
    }
}

/// The text that holds the lexeme on its own: the lexeme, with a newline
/// behind it where the token needs one to be finished.
pub open spec fn in_isolation(kind: TokenType, lexeme: Seq<char>) -> Seq<char> {
    if closes_itself(kind) {
        lexeme
    } else {
        lexeme.push('\n')
    }
}

/// The tokens of that text: the token itself at the start of the text, the
/// newline behind it if there is one, and the end-of-file token.
pub open spec fn alone(kind: TokenType, lexeme: Seq<char>) -> Seq<TokenView> {
    let end = Position::origin().advance_over(lexeme);
    let token = TokenView { kind, lexeme, start: Position::origin(), end };
    if kind == TokenType::EndOfFile {
        seq![token]
    } else if closes_itself(kind) {
        seq![token, TokenView { kind: TokenType::EndOfFile, lexeme: Seq::empty(), start: end, end }]
    } else {
        let below = end.advance('\n');
        seq![
            token,
            TokenView { kind: TokenType::Newline, lexeme: seq!['\n'], start: end, end: below },
            TokenView {
                kind: TokenType::EndOfFile,
                lexeme: Seq::empty(),
                start: below,
                end: below,
            },
        ]
    }
}

/// A finished token, read again on its own, comes out as it was: the text
/// made of its lexeme (and a newline, where the token does not close itself)
/// is tokenized without an error, into that token, the newline if there is
/// one, and the end-of-file token.
pub proof fn lemma_complete_token_relexes(file: Seq<char>, kind: TokenType, lexeme: Seq<char>)
    requires
        complete(kind, lexeme),
    ensures
        tokenize(file, in_isolation(kind, lexeme)) == Ok::<Seq<TokenView>, LexErrorView>(
            alone(kind, lexeme),
        ),
{
    let text = in_isolation(kind, lexeme);
    let start = LexState::initial();
    let n = lexeme.len() as int;
    if kind == TokenType::EndOfFile {
        assert(text =~= Seq::empty());
        assert(start.run(text) == Ok::<LexState, Failure>(start));
        assert(start.finish() == Ok::<Seq<TokenView>, Failure>(alone(kind, lexeme)));
    } else {
        lemma_run_makes_token(start, kind, lexeme);
        let s = behind_token(start, kind, lexeme);
        if closes_itself(kind) {
            assert(s.finish() matches Ok(tokens) && tokens =~= alone(kind, lexeme));
        } else {
            assert(text.drop_last() =~= lexeme);
            assert(text.last() == '\n');
            if kind is BinLiteral || kind is HexLiteral || kind is DecimalLiteral {
                assert(lexeme.last() == lexeme[n - 1]);
            }
            assert(decide(s.kind, s.partial, '\n', unicode_alphabetic('\n')) == Action::Release);
            let done = s.finalize().extend('\n').under(TokenType::Newline).finalize();
            assert(s.step('\n') == Ok::<LexState, Failure>(done));
            assert(Seq::<char>::empty().push('\n') =~= seq!['\n']);
            assert(done.finish() matches Ok(tokens) && tokens =~= alone(kind, lexeme));
        }
    }
}

/// Reading a token of a text again on its own gives a token of the same kind
/// and with the same lexeme: the lexeme of the token, followed by a newline
/// where the token does not close itself, is a text without errors whose
/// first token has the kind and the lexeme of the token. It does not matter
/// under which file name the token is read again.
pub proof fn lemma_relexing_reproduces_token(
    file: Seq<char>,
    source: Seq<char>,
    i: int,
    again: Seq<char>,
)
    requires
        tokenize(file, source) is Ok,
        0 <= i < (tokenize(file, source)->Ok_0).len(),
    ensures
        ({
            let token = (tokenize(file, source)->Ok_0)[i];
            let text = in_isolation(token.kind, token.lexeme);
            &&& tokenize(again, text) matches Ok(tokens)
            &&& tokens.len() >= 1
            &&& tokens[0].kind == token.kind
            &&& tokens[0].lexeme == token.lexeme
        }),
{
    lemma_lexemes_fit_kinds(file, source);
    let token = (tokenize(file, source)->Ok_0)[i];
    lemma_complete_token_relexes(again, token.kind, token.lexeme);
}

} // verus!
