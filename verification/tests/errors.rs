use lexer::{LexError, LexErrorType, Lexer};

fn error_of(source: &str) -> LexError {
    match Lexer::new("sample.src".into()).lex(source.into()) {
        Ok(_) => panic!("the text has a lexical error"),
        Err(e) => e,
    }
}

fn kind_lexeme_span(source: &str) -> (LexErrorType, String, (usize, usize), (usize, usize)) {
    let e = error_of(source);
    (
        e.error_type(),
        e.partial_token().to_string(),
        (e.start_line(), e.start_index()),
        (e.end_line(), e.end_index()),
    )
}

#[test]
fn wrong_quotes_reports_the_quote() {
    assert_eq!(
        kind_lexeme_span("x = 'a'\n"),
        (LexErrorType::WrongQuotes, "'".to_string(), (1, 4), (1, 4))
    );
}

#[test]
fn malformed_binary_reports_the_literal_and_the_character() {
    assert_eq!(
        kind_lexeme_span("0b0110534"),
        (LexErrorType::MalformedBinLiteral, "0b01105".to_string(), (1, 0), (1, 6))
    );
}

#[test]
fn wrong_hex_case_lies_at_the_upper_case_letter() {
    assert_eq!(
        kind_lexeme_span("0x4D\n"),
        (LexErrorType::WrongHexCase, "0x4D".to_string(), (1, 0), (1, 3))
    );
}

#[test]
fn malformed_hex_reports_the_character() {
    assert_eq!(
        kind_lexeme_span("0x4dk\n"),
        (LexErrorType::MalformedHexLiteral, "0x4dk".to_string(), (1, 0), (1, 4))
    );
}

#[test]
fn malformed_decimal_reports_the_character() {
    assert_eq!(
        kind_lexeme_span("\n56j54"),
        (LexErrorType::MalformedDecLiteral, "56j".to_string(), (2, 0), (2, 2))
    );
}

#[test]
fn second_decimal_point_is_refused() {
    assert_eq!(
        kind_lexeme_span("7.3.7"),
        (LexErrorType::MultipleDecimalPoints, "7.3.".to_string(), (1, 0), (1, 3))
    );
}

#[test]
fn unexpected_character_after_a_finished_token() {
    assert_eq!(
        kind_lexeme_span("ab#\n"),
        (LexErrorType::UnexpectedCharacter, "#".to_string(), (1, 2), (1, 2))
    );
}

#[test]
fn terminator_that_starts_no_token_is_unexpected() {
    assert_eq!(
        kind_lexeme_span("12;\n"),
        (LexErrorType::UnexpectedCharacter, ";".to_string(), (1, 2), (1, 2))
    );
}

#[test]
fn decimal_may_not_end_in_its_point() {
    assert_eq!(
        kind_lexeme_span("56.\n"),
        (LexErrorType::TrailingDPoint, "56.\n".to_string(), (1, 0), (1, 3))
    );
}

#[test]
fn binary_literal_needs_a_digit() {
    assert_eq!(
        kind_lexeme_span("0b\n"),
        (LexErrorType::EmptyBinLiteral, "0b\n".to_string(), (1, 0), (1, 2))
    );
}

#[test]
fn hex_literal_needs_a_digit() {
    assert_eq!(
        kind_lexeme_span("0x\n"),
        (LexErrorType::EmptyHexLiteral, "0x".to_string(), (1, 0), (1, 2))
    );
}

#[test]
fn open_string_at_the_end_of_the_text() {
    assert_eq!(
        kind_lexeme_span("a\n\"Hello\nwo"),
        (LexErrorType::UnexpectedEOFString, "\"Hello\nwo".to_string(), (2, 0), (3, 2))
    );
}

#[test]
fn unfinished_token_at_the_end_of_the_text() {
    assert_eq!(
        kind_lexeme_span("let x = 4"),
        (LexErrorType::MissingTrailingNewLine, "4".to_string(), (1, 8), (1, 9))
    );
}

#[test]
fn every_unfinished_kind_misses_the_trailing_newline() {
    for source in ["abc", "  ", "12", "1.5", "0b1", "0xf", "/", "// c", "="] {
        assert_eq!(error_of(source).error_type(), LexErrorType::MissingTrailingNewLine);
    }
}

#[test]
fn letter_beyond_ascii_starts_no_identifier() {
    assert_eq!(
        kind_lexeme_span("\u{e9}\n"),
        (LexErrorType::UnexpectedCharacter, "\u{e9}".to_string(), (1, 0), (1, 0))
    );
}

#[test]
fn symbol_beyond_ascii_ends_an_identifier() {
    assert_eq!(
        kind_lexeme_span("ab\u{1f49d}\n"),
        (LexErrorType::UnexpectedCharacter, "\u{1f49d}".to_string(), (1, 2), (1, 2))
    );
}

#[test]
fn error_remembers_file_and_text() {
    let e = error_of("a\n0x4D\n");
    assert_eq!(e.file(), "sample.src");
    assert_eq!(e.file_contents(), "a\n0x4D\n");
}

#[test]
fn first_error_wins() {
    assert_eq!(error_of("0b2 0x4D 'a'").error_type(), LexErrorType::MalformedBinLiteral);
}

#[test]
fn every_error_has_its_message() {
    assert_eq!(LexErrorType::WrongQuotes.message(), "Wrong quotes");
    assert_eq!(LexErrorType::MalformedBinLiteral.message(), "Malformed binary literal");
    assert_eq!(
        LexErrorType::WrongHexCase.message(),
        "Hexadecimals should always use lower case"
    );
    assert_eq!(LexErrorType::MalformedHexLiteral.message(), "Malformed hexadecimal literal");
    assert_eq!(LexErrorType::MalformedDecLiteral.message(), "Malformed decimal literal");
    assert_eq!(
        LexErrorType::MultipleDecimalPoints.message(),
        "Multiple decimal points in decimal literal"
    );
    assert_eq!(LexErrorType::UnexpectedCharacter.message(), "Unexpected character in input");
    assert_eq!(
        LexErrorType::TrailingDPoint.message(),
        "Decimal literal cannot end in decimal point"
    );
    assert_eq!(
        LexErrorType::EmptyBinLiteral.message(),
        "Binary literal must be at least one bit long"
    );
    assert_eq!(
        LexErrorType::EmptyHexLiteral.message(),
        "Hexadecimal literal must be at least one digit long"
    );
    assert_eq!(
        LexErrorType::UnexpectedEOFString.message(),
        "Unexpected EOF while lexing string literal"
    );
    assert_eq!(
        LexErrorType::MissingTrailingNewLine.message(),
        "File should end with a trailing newline"
    );
}

#[test]
fn error_in_one_line_is_underlined() {
    assert_eq!(
        error_of("0x4D\n").render(),
        "Error while lexing file sample.src\n\
         Hexadecimals should always use lower case on line 1, index 0-3:\n\
         0x4D\n\
         ^^^\n"
    );
}

#[test]
fn underline_starts_below_the_first_column_of_the_span() {
    assert_eq!(
        error_of("a\nlet x = 4.5.\n").render(),
        "Error while lexing file sample.src\n\
         Multiple decimal points in decimal literal on line 2, index 8-11:\n\
         let x = 4.5.\n        ^^^\n"
    );
}

#[test]
fn empty_span_names_one_column_and_has_no_caret() {
    assert_eq!(
        error_of("5 '").render(),
        "Error while lexing file sample.src\nWrong quotes on line 1, index 2:\n5 '\n  \n"
    );
}

#[test]
fn error_over_several_lines_shows_them_without_underline() {
    assert_eq!(
        error_of("a\n\"Hello\nwo").render(),
        "Error while lexing file sample.src\n\
         Unexpected EOF while lexing string literal on lines 2-3:\n\
         \"Hello\nwo\n"
    );
}

#[test]
fn line_numbers_are_written_in_decimal() {
    let mut source = "\n".repeat(119);
    source.push_str("          0b12\n");
    assert_eq!(
        error_of(&source).render(),
        "Error while lexing file sample.src\n\
         Malformed binary literal on line 120, index 10-13:\n          0b12\n          ^^^\n"
    );
}

#[test]
fn carriage_return_before_a_newline_is_not_shown() {
    assert_eq!(
        error_of("ab\r\ncd\n").render(),
        "Error while lexing file sample.src\nUnexpected character in input on line 1, index 2:\nab\n  \n"
    );
}
