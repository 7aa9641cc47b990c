use lexer::{LexError, LexErrorType, Lexer, Token, TokenType};

fn lex_to_tokens(source: &str) -> Vec<TokenType> {
    let lexer = Lexer::new("my_file".into());
    let tokens = lexer.lex(source.into()).expect("Unexpected error during test");
    return tokens.iter().map(|x| x.token_type()).collect();
}

fn lex_to_err(source: &str) -> LexErrorType {
    let lexer = Lexer::new("my_file".into());
    match lexer.lex(source.into()) {
        Ok(_) => {
            panic!("Error not thrown when expected");
        }
        Err(e) => {
            return e.error_type();
        }
    }
}

fn lex(source: &str) -> Result<Vec<Token>, LexError> {
    let lexer = Lexer::new("my_file".into());
    return lexer.lex(source.into());
}

#[test]
fn single_identifier() {
    assert_eq!(
        lex_to_tokens("MyVariable\n"),
        vec![TokenType::Identifier, TokenType::Newline, TokenType::EndOfFile]
    );
}

#[test]
fn wrong_quotes() {
    assert_eq!(lex_to_err("'Hello world'"), LexErrorType::WrongQuotes)
}

#[test]
fn wrong_quote() {
    assert_eq!(lex_to_err("'Hello wo"), LexErrorType::WrongQuotes)
}

#[test]
fn wrong_quote_inside() {
    match lex("\"don't want an error here\"") {
        Ok(_) => {}
        Err(_) => {
            panic!("Incorrectly errors on single quote within string literal")
        }
    }
}

#[test]
fn malformed_binary() {
    assert_eq!(lex_to_err("0b0110534"), LexErrorType::MalformedBinLiteral)
}

#[test]
fn hex_right() {
    match lex("0xdeadbeef\n") {
        Ok(_) => {}
        Err(e) => {
            println!("{:?}", e);
            panic!("Incorrectly errors on correct hex literal")
        }
    }
}

#[test]
fn hex_wrong() {
    assert_eq!(lex_to_err("0x4D\n"), LexErrorType::WrongHexCase);
}

#[test]
fn hex_mixed() {
    assert_eq!(lex_to_err("0x4Dd\n"), LexErrorType::WrongHexCase);
}

#[test]
fn bad_hex() {
    assert_eq!(lex_to_err("0x4dk\n"), LexErrorType::MalformedHexLiteral);
}

#[test]
fn dec_wrong() {
    assert_eq!(lex_to_err("0.f\n"), LexErrorType::MalformedDecLiteral);
}

#[test]
fn dec_trailing_dpoint() {
    assert_eq!(lex_to_err("56.\n"), LexErrorType::TrailingDPoint);
}

#[test]
fn dec_multiple_dpoint() {
    assert_eq!(lex_to_err("7.3.7"), LexErrorType::MultipleDecimalPoints);
}

#[test]
fn malformed_decimal() {
    assert_eq!(lex_to_err("56j54"), LexErrorType::MalformedDecLiteral);
}

#[test]
fn decimal_and_operators() {
    match lex("56+23\n") {
        Ok(_) => {}
        Err(e) => {
            println!("{:?}", e);
            panic!("Decimal not terminated at operator")
        }
    }
}

#[test]
fn bin_empty() {
    assert_eq!(lex_to_err("0b\n"), LexErrorType::EmptyBinLiteral);
}

#[test]
fn hex_empty() {
    assert_eq!(lex_to_err("0x\n"), LexErrorType::EmptyHexLiteral);
}

#[test]
fn unexpected_end_of_file() {
    assert_eq!(lex_to_err("\"Hello wo"), LexErrorType::UnexpectedEOFString);
}

#[test]
fn trailing_newline() {
    assert_eq!(lex_to_err("let x = 4"), LexErrorType::MissingTrailingNewLine);
}
