use lexer::{Lexer, Operator, Token, TokenType};

fn tokens_of(source: &str) -> Vec<Token> {
    Lexer::new("sample".into())
        .lex(source.into())
        .expect("the text has no lexical error")
}

fn kinds_and_lexemes(source: &str) -> Vec<(TokenType, String)> {
    tokens_of(source)
        .iter()
        .map(|t| (t.token_type(), t.value().to_string()))
        .collect()
}

fn spans(source: &str) -> Vec<(usize, usize, usize, usize)> {
    tokens_of(source)
        .iter()
        .map(|t| (t.start_line(), t.start_index(), t.end_line(), t.end_index()))
        .collect()
}

#[test]
fn empty_text_is_one_end_of_file_token() {
    assert_eq!(kinds_and_lexemes(""), vec![(TokenType::EndOfFile, String::new())]);
    assert_eq!(spans(""), vec![(1, 0, 1, 0)]);
}

#[test]
fn identifier_keeps_its_lexeme() {
    assert_eq!(
        kinds_and_lexemes("MyVariable\n"),
        vec![
            (TokenType::Identifier, "MyVariable".to_string()),
            (TokenType::Newline, "\n".to_string()),
            (TokenType::EndOfFile, String::new()),
        ]
    );
}

#[test]
fn hex_literal_is_one_token() {
    assert_eq!(
        kinds_and_lexemes("0xdeadbeef\n"),
        vec![
            (TokenType::HexLiteral, "0xdeadbeef".to_string()),
            (TokenType::Newline, "\n".to_string()),
            (TokenType::EndOfFile, String::new()),
        ]
    );
}

#[test]
fn binary_literal_is_one_token() {
    assert_eq!(
        kinds_and_lexemes("0b0110\n"),
        vec![
            (TokenType::BinLiteral, "0b0110".to_string()),
            (TokenType::Newline, "\n".to_string()),
            (TokenType::EndOfFile, String::new()),
        ]
    );
}

#[test]
fn decimals_end_at_an_operator() {
    assert_eq!(
        kinds_and_lexemes("56+23\n"),
        vec![
            (TokenType::DecimalLiteral(false), "56".to_string()),
            (TokenType::Operator(Operator::Plus), "+".to_string()),
            (TokenType::DecimalLiteral(false), "23".to_string()),
            (TokenType::Newline, "\n".to_string()),
            (TokenType::EndOfFile, String::new()),
        ]
    );
}

#[test]
fn decimal_point_does_not_show_in_the_kind() {
    assert_eq!(
        kinds_and_lexemes("7.35 0\n"),
        vec![
            (TokenType::DecimalLiteral(false), "7.35".to_string()),
            (TokenType::Whitespace, " ".to_string()),
            (TokenType::DecimalLiteral(false), "0".to_string()),
            (TokenType::Newline, "\n".to_string()),
            (TokenType::EndOfFile, String::new()),
        ]
    );
}

#[test]
fn decimals_with_and_without_point_have_one_kind() {
    let pointed = tokens_of("5.3\n");
    let plain = tokens_of("53\n");
    assert_eq!(pointed[0].token_type(), plain[0].token_type());
    assert_eq!(pointed[0].value(), "5.3");
    assert_eq!(plain[0].value(), "53");
}

#[test]
fn finished_kinds_carry_no_flag() {
    assert_eq!(TokenType::DecimalLiteral(true).resolve(), TokenType::DecimalLiteral(false));
    assert_eq!(TokenType::DecimalLiteral(false).resolve(), TokenType::DecimalLiteral(false));
    assert_eq!(TokenType::StringLiteral(true).resolve(), TokenType::StringLiteral(false));
    assert_eq!(TokenType::StringLiteral(false).resolve(), TokenType::StringLiteral(false));
    assert_eq!(TokenType::Identifier.resolve(), TokenType::Identifier);
    assert_eq!(
        TokenType::Operator(Operator::Divide).resolve(),
        TokenType::Operator(Operator::Divide)
    );
    assert_eq!(TokenType::EndOfFile.resolve(), TokenType::EndOfFile);
    for token in tokens_of("1.5+2 \"s\" 0x1f\n") {
        assert_eq!(token.token_type().resolve(), token.token_type());
    }
}

#[test]
fn zero_followed_by_digits_stays_decimal() {
    assert_eq!(
        kinds_and_lexemes("05\n"),
        vec![
            (TokenType::DecimalLiteral(false), "05".to_string()),
            (TokenType::Newline, "\n".to_string()),
            (TokenType::EndOfFile, String::new()),
        ]
    );
}

#[test]
fn every_operator_and_bracket() {
    assert_eq!(
        kinds_and_lexemes("+-*/(){}\n"),
        vec![
            (TokenType::Operator(Operator::Plus), "+".to_string()),
            (TokenType::Operator(Operator::Minus), "-".to_string()),
            (TokenType::Operator(Operator::Multiply), "*".to_string()),
            (TokenType::Operator(Operator::Divide), "/".to_string()),
            (TokenType::LeftParen, "(".to_string()),
            (TokenType::RightParen, ")".to_string()),
            (TokenType::LeftBrace, "{".to_string()),
            (TokenType::RightBrace, "}".to_string()),
            (TokenType::Newline, "\n".to_string()),
            (TokenType::EndOfFile, String::new()),
        ]
    );
}

#[test]
fn single_and_double_equals() {
    assert_eq!(
        kinds_and_lexemes("a = b == c\n"),
        vec![
            (TokenType::Identifier, "a".to_string()),
            (TokenType::Whitespace, " ".to_string()),
            (TokenType::Equals, "=".to_string()),
            (TokenType::Whitespace, " ".to_string()),
            (TokenType::Identifier, "b".to_string()),
            (TokenType::Whitespace, " ".to_string()),
            (TokenType::Operator(Operator::Equals), "==".to_string()),
            (TokenType::Whitespace, " ".to_string()),
            (TokenType::Identifier, "c".to_string()),
            (TokenType::Newline, "\n".to_string()),
            (TokenType::EndOfFile, String::new()),
        ]
    );
}

#[test]
fn three_equals_are_a_comparison_and_an_assignment() {
    assert_eq!(
        kinds_and_lexemes("===\n"),
        vec![
            (TokenType::Operator(Operator::Equals), "==".to_string()),
            (TokenType::Equals, "=".to_string()),
            (TokenType::Newline, "\n".to_string()),
            (TokenType::EndOfFile, String::new()),
        ]
    );
}

#[test]
fn comment_runs_to_the_end_of_the_line() {
    assert_eq!(
        kinds_and_lexemes("x // note \"1\" + 'y'\ny\n"),
        vec![
            (TokenType::Identifier, "x".to_string()),
            (TokenType::Whitespace, " ".to_string()),
            (TokenType::LineComment, "// note \"1\" + 'y'".to_string()),
            (TokenType::Newline, "\n".to_string()),
            (TokenType::Identifier, "y".to_string()),
            (TokenType::Newline, "\n".to_string()),
            (TokenType::EndOfFile, String::new()),
        ]
    );
}

#[test]
fn division_before_anything_but_a_slash() {
    assert_eq!(
        kinds_and_lexemes("8/2\n"),
        vec![
            (TokenType::DecimalLiteral(false), "8".to_string()),
            (TokenType::Operator(Operator::Divide), "/".to_string()),
            (TokenType::DecimalLiteral(false), "2".to_string()),
            (TokenType::Newline, "\n".to_string()),
            (TokenType::EndOfFile, String::new()),
        ]
    );
}

#[test]
fn whitespace_is_collected_into_one_token() {
    assert_eq!(
        kinds_and_lexemes("a   b\n"),
        vec![
            (TokenType::Identifier, "a".to_string()),
            (TokenType::Whitespace, "   ".to_string()),
            (TokenType::Identifier, "b".to_string()),
            (TokenType::Newline, "\n".to_string()),
            (TokenType::EndOfFile, String::new()),
        ]
    );
}

#[test]
fn string_may_hold_anything_but_a_double_quote() {
    assert_eq!(
        kinds_and_lexemes("\"don't 0x4D // \\ \n +\""),
        vec![
            (TokenType::StringLiteral(false), "\"don't 0x4D // \\ \n +\"".to_string()),
            (TokenType::EndOfFile, String::new()),
        ]
    );
}

#[test]
fn backslash_does_not_escape_a_quote() {
    assert_eq!(
        kinds_and_lexemes("\"a\\\"\n"),
        vec![
            (TokenType::StringLiteral(false), "\"a\\\"".to_string()),
            (TokenType::Newline, "\n".to_string()),
            (TokenType::EndOfFile, String::new()),
        ]
    );
}

#[test]
fn string_closes_a_file_without_a_newline() {
    assert_eq!(
        kinds_and_lexemes("\"Hello world\""),
        vec![
            (TokenType::StringLiteral(false), "\"Hello world\"".to_string()),
            (TokenType::EndOfFile, String::new()),
        ]
    );
}

#[test]
fn identifier_takes_letters_beyond_ascii() {
    assert_eq!(
        kinds_and_lexemes("caf\u{e9}\u{4eac}\n"),
        vec![
            (TokenType::Identifier, "caf\u{e9}\u{4eac}".to_string()),
            (TokenType::Newline, "\n".to_string()),
            (TokenType::EndOfFile, String::new()),
        ]
    );
}

#[test]
fn identifier_ends_at_a_digit() {
    assert_eq!(
        kinds_and_lexemes("ab12\n"),
        vec![
            (TokenType::Identifier, "ab".to_string()),
            (TokenType::DecimalLiteral(false), "12".to_string()),
            (TokenType::Newline, "\n".to_string()),
            (TokenType::EndOfFile, String::new()),
        ]
    );
}

#[test]
fn spans_are_counted_in_lines_and_columns() {
    assert_eq!(
        spans("let x\n= 4\n"),
        vec![
            (1, 0, 1, 3),
            (1, 3, 1, 4),
            (1, 4, 1, 5),
            (1, 5, 2, 0),
            (2, 0, 2, 1),
            (2, 1, 2, 2),
            (2, 2, 2, 3),
            (2, 3, 3, 0),
            (3, 0, 3, 0),
        ]
    );
}

#[test]
fn string_over_two_lines_ends_in_the_second() {
    assert_eq!(spans("\"ab\ncd\"\n"), vec![(1, 0, 2, 3), (2, 3, 3, 0), (3, 0, 3, 0)]);
}

#[test]
fn columns_count_characters_not_bytes() {
    assert_eq!(
        spans("a\u{e9}\u{4eac} x\n"),
        vec![(1, 0, 1, 3), (1, 3, 1, 4), (1, 4, 1, 5), (1, 5, 2, 0), (2, 0, 2, 0)]
    );
}

#[test]
fn spans_are_contiguous_and_end_in_one_end_of_file() {
    let sources = [
        "",
        "\n",
        "let x = 4\n",
        "0x1f+0b01*(7.5/2)\n",
        "a // c\n\"s\nt\"\n{ b == c }\n",
        "\"only a string\"",
    ];
    for source in sources {
        let tokens = tokens_of(source);
        assert!(!tokens.is_empty());
        assert_eq!((tokens[0].start_line(), tokens[0].start_index()), (1, 0));
        for pair in tokens.windows(2) {
            assert_eq!(
                (pair[0].end_line(), pair[0].end_index()),
                (pair[1].start_line(), pair[1].start_index())
            );
        }
        let last = tokens.last().unwrap();
        assert_eq!(last.token_type(), TokenType::EndOfFile);
        assert_eq!(
            (last.start_line(), last.start_index()),
            (last.end_line(), last.end_index())
        );
        let ends = tokens
            .iter()
            .filter(|t| t.token_type() == TokenType::EndOfFile)
            .count();
        assert_eq!(ends, 1);
    }
}

#[test]
fn lexemes_spell_the_text() {
    let sources = [
        "",
        "let x = 4\n",
        "0x1f+0b01*(7.5/2)\n",
        "a // c\n\"s\nt\"\n{ b == c }\n",
    ];
    for source in sources {
        let spelled: String = tokens_of(source).iter().map(|t| t.value()).collect();
        assert_eq!(spelled, source);
    }
}

fn closes_itself(kind: TokenType) -> bool {
    match kind {
        TokenType::StringLiteral(_)
        | TokenType::LeftParen
        | TokenType::RightParen
        | TokenType::LeftBrace
        | TokenType::RightBrace
        | TokenType::Newline
        | TokenType::EndOfFile => true,
        TokenType::Operator(op) => op != Operator::Divide,
        _ => false,
    }
}

#[test]
fn token_read_again_alone_is_the_same_token() {
    let source = "let x = 4.5 + 0x1f * 0b01 / (y == z) // done\n\"text\nmore\" { }\n";
    for token in tokens_of(source) {
        let mut alone = token.value().to_string();
        if !closes_itself(token.token_type()) {
            alone.push('\n');
        }
        let again = tokens_of(&alone);
        assert_eq!(again[0].token_type(), token.token_type());
        assert_eq!(again[0].value(), token.value());
        assert_eq!((again[0].start_line(), again[0].start_index()), (1, 0));
    }
}

#[test]
fn token_is_shown_with_its_kind_and_lexeme() {
    let tokens = tokens_of("x=0b1\n");
    let shown: Vec<String> = tokens.iter().map(|t| t.render()).collect();
    assert_eq!(
        shown,
        vec![
            "Identifier: \"x\"",
            "Equals: \"=\"",
            "Binary literal: \"0b1\"",
            "Newline: \"\n\"",
            "End of file: \"\"",
        ]
    );
}

#[test]
fn every_kind_has_its_name() {
    assert_eq!(TokenType::BinLiteral.name(), "Binary literal");
    assert_eq!(TokenType::HexLiteral.name(), "Hexadecimal literal");
    assert_eq!(TokenType::DecimalLiteral(false).name(), "Decimal literal");
    assert_eq!(TokenType::DecimalLiteral(true).name(), "Decimal literal");
    assert_eq!(TokenType::StringLiteral(false).name(), "String literal");
    assert_eq!(TokenType::Operator(Operator::Plus).name(), "Plus operator");
    assert_eq!(TokenType::Operator(Operator::Minus).name(), "Minus operator");
    assert_eq!(TokenType::Operator(Operator::Multiply).name(), "Multiply operator");
    assert_eq!(TokenType::Operator(Operator::Divide).name(), "Divide operator");
    assert_eq!(TokenType::Operator(Operator::Equals).name(), "Equality operator");
    assert_eq!(TokenType::LineComment.name(), "Line comment");
    assert_eq!(TokenType::LeftParen.name(), "Left paren");
    assert_eq!(TokenType::RightParen.name(), "Right paren");
    assert_eq!(TokenType::LeftBrace.name(), "Left brace");
    assert_eq!(TokenType::RightBrace.name(), "Right brace");
    assert_eq!(TokenType::Equals.name(), "Equals");
    assert_eq!(TokenType::Identifier.name(), "Identifier");
    assert_eq!(TokenType::Whitespace.name(), "Whitespace");
    assert_eq!(TokenType::Newline.name(), "Newline");
    assert_eq!(TokenType::EndOfFile.name(), "End of file");
}
