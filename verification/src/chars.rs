//! Character classes that the tokenizer's transitions read.

use vstd::prelude::*;

verus! {

/// Whether Unicode gives `c` the `Alphabetic` property.
///
/// The property is a table of the Unicode Character Database; nothing here
/// says on which characters it holds.
pub uninterp spec fn unicode_alphabetic(c: char) -> bool;

/// `char::is_alphabetic` of the standard library, which is documented to
/// return `true` exactly when the character has the Unicode `Alphabetic`
/// property. Trusted: the result is that property of the argument.
pub assume_specification[ char::is_alphabetic ](c: char) -> (r: bool)
    ensures
        r == unicode_alphabetic(c),
;

/// The decimal digits `0` to `9`.
pub open spec fn decimal_digit(c: char) -> bool {
    '0' <= c <= '9'
}

/// The binary digits `0` and `1`.
pub open spec fn binary_digit(c: char) -> bool {
    c == '0' || c == '1'
}

/// The hexadecimal digits in their only accepted spelling: `0` to `9` and
/// lower-case `a` to `f`.
pub open spec fn hex_digit(c: char) -> bool {
    '0' <= c <= '9' || 'a' <= c <= 'f'
}

/// The upper-case letters `A` to `F`, which a hexadecimal literal refuses.
pub open spec fn upper_hex_letter(c: char) -> bool {
    'A' <= c <= 'F'
}

/// The letters of ASCII; one of them starts an identifier.
pub open spec fn ascii_letter(c: char) -> bool {
    'a' <= c <= 'z' || 'A' <= c <= 'Z'
}

/// Whether `c` carries an identifier on, given whether Unicode classes it as
/// alphabetic.
///
/// Inside ASCII the alphabetic characters are exactly the letters, so there
/// the answer does not depend on `alphabetic`; beyond ASCII it is
/// `alphabetic` itself.
pub open spec fn identifier_char(c: char, alphabetic: bool) -> bool {
    ascii_letter(c) || (c > '\x7f' && alphabetic)
}

/// The characters that end a numeric literal: operators, brackets, the double
/// quote, punctuation, the space and the newline.
pub open spec fn literal_terminator(c: char) -> bool {
    ||| c == '+'
    ||| c == '-'
    ||| c == '*'
    ||| c == '/'
    ||| c == '!'
    ||| c == '"'
    ||| c == '%'
    ||| c == '^'
    ||| c == '&'
    ||| c == '('
    ||| c == ')'
    ||| c == '{'
    ||| c == '}'
    ||| c == '['
    ||| c == ']'
    ||| c == '.'
    ||| c == ','
    ||| c == '|'
    ||| c == ':'
    ||| c == ';'
    ||| c == ' '
    ||| c == '\n'
}

/// Whether `c` is a decimal digit.
pub fn is_decimal_digit(c: char) -> (r: bool)
    ensures
        r == decimal_digit(c),
{
    '0' <= c && c <= '9'
}

/// Whether `c` is a binary digit.
pub fn is_binary_digit(c: char) -> (r: bool)
    ensures
        r == binary_digit(c),
{
    c == '0' || c == '1'
}

/// Whether `c` is a hexadecimal digit in lower case.
pub fn is_hex_digit(c: char) -> (r: bool)
    ensures
        r == hex_digit(c),
{
    ('0' <= c && c <= '9') || ('a' <= c && c <= 'f')
}

/// Whether `c` is one of the upper-case letters `A` to `F`.
pub fn is_upper_hex_letter(c: char) -> (r: bool)
    ensures
        r == upper_hex_letter(c),
{
    'A' <= c && c <= 'F'
}

/// Whether `c` is a letter of ASCII.
pub fn is_ascii_letter(c: char) -> (r: bool)
    ensures
        r == ascii_letter(c),
{
    ('a' <= c && c <= 'z') || ('A' <= c && c <= 'Z')
}

/// Whether `c` carries an identifier on, given whether it is alphabetic.
pub fn is_identifier_char(c: char, alphabetic: bool) -> (r: bool)
    ensures
        r == identifier_char(c, alphabetic),
{
    is_ascii_letter(c) || (c > '\x7f' && alphabetic)
}

/// Whether `current_char` ends a numeric literal.
pub fn is_literal_terminator(current_char: char) -> (r: bool)
    ensures
        r == literal_terminator(current_char),
{
    match current_char {
        '+' | '-' | '*' | '/' | '!' | '"' | '%' | '^' | '&' | '(' | ')' | '{' | '}' | '[' | ']'
        | '.' | ',' | '|' | ':' | ';' | ' ' | '\n' => true,
        _ => false,
    }
}

} // verus!
