//! Text as diagnostics need it: numbers in decimal, runs of one character,
//! and the lines of a text.

use vstd::prelude::*;
use vstd::std_specs::iter::IteratorSpec;
use vstd::string::StringExecFns;

verus! {

/// `String::push` of the standard library, which is documented to append the
/// given character to the end of the string. Trusted: afterwards the string
/// holds its former characters followed by `ch`.
pub assume_specification[ String::push ](s: &mut String, ch: char)
    ensures
        final(s)@ == old(s)@.push(ch),
;

/// The digit that stands for `d`, which is below ten.
pub open spec fn digit_char(d: nat) -> char {
    if d == 0 {
        '0'
    } else if d == 1 {
        '1'
    } else if d == 2 {
        '2'
    } else if d == 3 {
        '3'
    } else if d == 4 {
        '4'
    } else if d == 5 {
        '5'
    } else if d == 6 {
        '6'
    } else if d == 7 {
        '7'
    } else if d == 8 {
        '8'
    } else {
        '9'
    }
}

/// `n` written in decimal, without leading zeros.
pub open spec fn decimal(n: nat) -> Seq<char>
    decreases n,
{
    if n < 10 {
        seq![digit_char(n)]
    } else {
        decimal(n / 10).push(digit_char(n % 10))
    }
}

/// `n` copies of `c`.
pub open spec fn repeated(c: char, n: nat) -> Seq<char> {
    Seq::new(n, |i: int| c)
}

/// A line without the carriage return that stood before its newline.
pub open spec fn without_return(line: Seq<char>) -> Seq<char> {
    if line.len() > 0 && line.last() == '\r' {
        line.drop_last()
    } else {
        line
    }
}

/// The lines of `text` that a newline has ended, in order, each without its
/// newline and without a carriage return right before it.
pub open spec fn ended_lines(text: Seq<char>) -> Seq<Seq<char>>
    decreases text.len(),
{
    if text.len() == 0 {
        Seq::empty()
    } else if text.last() == '\n' {
        ended_lines(text.drop_last()).push(without_return(open_line(text.drop_last())))
    } else {
        ended_lines(text.drop_last())
    }
}

/// What stands in `text` behind its last newline.
pub open spec fn open_line(text: Seq<char>) -> Seq<char>
    decreases text.len(),
{
    if text.len() == 0 || text.last() == '\n' {
        Seq::empty()
    } else {
        open_line(text.drop_last()).push(text.last())
    }
}

/// The lines of `text`. A newline ends a line, and so does a carriage return
/// with a newline behind it; neither belongs to the line. Characters behind
/// the last newline are a line of their own, as they stand.
pub open spec fn lines(text: Seq<char>) -> Seq<Seq<char>> {
    if open_line(text).len() == 0 {
        ended_lines(text)
    } else {
        ended_lines(text).push(open_line(text))
    }
}

/// The lines numbered `first` to `last`, counted from 1, as far as there are
/// such lines.
pub open spec fn lines_between(all: Seq<Seq<char>>, first: nat, last: nat) -> Seq<Seq<char>> {
    let from = if first >= 1 {
        first - 1
    } else {
        0
    };
    if from >= all.len() || last <= from {
        Seq::empty()
    } else if last >= all.len() {
        all.subrange(from, all.len() as int)
    } else {
        all.subrange(from, last as int)
    }
}

/// The lines one below the other: a newline between each two.
pub open spec fn stacked(all: Seq<Seq<char>>) -> Seq<char>
    decreases all.len(),
{
    if all.len() == 0 {
        Seq::empty()
    } else if all.len() == 1 {
        all[0]
    } else {
        stacked(all.drop_last()).push('\n') + all.last()
    }
}

/// The views of a run of strings, in order.
pub open spec fn string_views(strings: Seq<String>) -> Seq<Seq<char>> {
    strings.map_values(|s: String| s@)
}

fn digit(d: usize) -> (r: char)
    requires
        d < 10,
    ensures
        r == digit_char(d as nat),
{
    match d {
        0 => '0',
        1 => '1',
        2 => '2',
        3 => '3',
        4 => '4',
        5 => '5',
        6 => '6',
        7 => '7',
        8 => '8',
        _ => '9',
    }
}

/// Writes `n` in decimal behind what `out` holds.
pub fn push_decimal(out: &mut String, n: usize)
    ensures
        final(out)@ == old(out)@ + decimal(n as nat),
    decreases n,
{
    if n >= 10 {
        push_decimal(out, n / 10);
    }
    out.push(digit(n % 10));
    assert(final(out)@ =~= old(out)@ + decimal(n as nat));
}

/// Writes `n` copies of `c` behind what `out` holds.
pub fn push_repeated(out: &mut String, c: char, n: usize)
    ensures
        final(out)@ == old(out)@ + repeated(c, n as nat),
{
    let mut i: usize = 0;
    while i < n
        invariant
            i <= n,
            out@ == old(out)@ + repeated(c, i as nat),
        decreases n - i,
    {
        out.push(c);
        i += 1;
        assert(out@ =~= old(out)@ + repeated(c, i as nat));
    }
}

/// The string that holds the given characters.
pub fn string_of(chars: &Vec<char>) -> (r: String)
    ensures
        r@ == chars@,
{
    let mut out = String::new();
    let mut i: usize = 0;
    while i < chars.len()
        invariant
            i <= chars.len(),
            out@ == chars@.take(i as int),
        decreases chars.len() - i,
    {
        out.push(chars[i]);
        i += 1;
        assert(out@ =~= chars@.take(i as int));
    }
    assert(chars@.take(i as int) =~= chars@);
    out
}

/// Splits `text` into its lines.
pub fn split_lines(text: &str) -> (r: Vec<String>)
    ensures
        string_views(r@) == lines(text@),
{
    let mut done: Vec<String> = Vec::new();
    let mut current: Vec<char> = Vec::new();
    let mut chars = text.chars();
    let ghost mut consumed: int = 0;
    assert(string_views(done@) =~= ended_lines(text@.take(0)));
    loop
        invariant
            0 <= consumed <= text@.len(),
            chars.obeys_prophetic_iter_laws(),
            chars.remaining() == text@.skip(consumed),
            string_views(done@) == ended_lines(text@.take(consumed)),
            current@ == open_line(text@.take(consumed)),
        ensures
            string_views(done@) == ended_lines(text@),
            current@ == open_line(text@),
        decreases text@.len() - consumed,
    {
        match chars.next() {
            Some(c) => {
                assert(text@.take(consumed + 1).drop_last() =~= text@.take(consumed));
                assert(text@.take(consumed + 1).last() == c);
                if c == '\n' {
                    let n: usize = current.len();
                    if n > 0 && current[n - 1] == '\r' {
                        current.pop();
                    }
                    let line = string_of(&current);
                    done.push(line);
                    current = Vec::new();
                    assert(string_views(done@) =~= ended_lines(text@.take(consumed + 1)));
                } else {
                    current.push(c);
                }
                proof {
                    consumed = consumed + 1;
                }
            },
            None => {
                assert(text@.take(consumed) =~= text@);
                break ;
            },
        }
    }
    if current.len() > 0 {
        let line = string_of(&current);
        done.push(line);
        assert(string_views(done@) =~= lines(text@));
    }
    done
}

/// Stacks the lines numbered `first` to `last`, counted from 1, as far as
/// there are such lines.
pub fn stack_lines(all: &Vec<String>, first: usize, last: usize) -> (r: String)
    ensures
        r@ == stacked(lines_between(string_views(all@), first as nat, last as nat)),
{
    let from: usize = if first >= 1 {
        first - 1
    } else {
        0
    };
    let mut out = String::new();
    if from >= all.len() || last <= from {
        return out;
    }
    let to: usize = if last >= all.len() {
        all.len()
    } else {
        last
    };
    let ghost wanted = lines_between(string_views(all@), first as nat, last as nat);
    assert(wanted =~= string_views(all@).subrange(from as int, to as int));
    let mut i: usize = from;
    while i < to
        invariant
            from <= i <= to <= all.len(),
            from < to,
            wanted == string_views(all@).subrange(from as int, to as int),
            out@ == stacked(wanted.take(i - from)),
        decreases to - i,
    {
        if i > from {
            out.push('\n');
        }
        out.append(all[i].as_str());
        i += 1;
        proof {
            let now = wanted.take(i - from);
            assert(now.drop_last() =~= wanted.take(i - 1 - from));
            assert(now.last() == all@[i - 1]@);
        }
    }
    assert(wanted.take(to - from) =~= wanted);
    out
}

} // verus!
