use assembler::tokenizer::TokenError;
use assembler::tokenizer::Tokenizer;

#[test]
fn message_of_an_unterminated_string() {
    let error = TokenError::UnterminatedString { line: 1, column: 3 };
    assert_eq!(error.message(), "Unterminated string at line 1, column 3");
}

#[test]
fn message_of_an_unexpected_character() {
    let error = TokenError::UnexpectedCharacter { character: '@', line: 1, column: 7 };
    assert_eq!(error.message(), "Unexpected character '@' at line 1, column 7");
}

#[test]
fn message_writes_numbers_in_decimal() {
    let error = TokenError::UnterminatedString { line: 0, column: 10 };
    assert_eq!(error.message(), "Unterminated string at line 0, column 10");
    let error = TokenError::UnterminatedString { line: 9, column: 99 };
    assert_eq!(error.message(), "Unterminated string at line 9, column 99");
    let error = TokenError::UnterminatedString { line: 1234567890, column: 100 };
    assert_eq!(error.message(), "Unterminated string at line 1234567890, column 100");
    let error = TokenError::UnterminatedString { line: usize::MAX, column: usize::MAX - 1 };
    assert_eq!(
        error.message(),
        format!("Unterminated string at line {}, column {}", usize::MAX, usize::MAX - 1)
    );
}

#[test]
fn message_shows_the_character_as_it_is() {
    let error = TokenError::UnexpectedCharacter { character: '\u{1f49d}', line: 20, column: 301 };
    assert_eq!(error.message(), "Unexpected character '\u{1f49d}' at line 20, column 301");
    let error = TokenError::UnexpectedCharacter { character: '\'', line: 2, column: 1 };
    assert_eq!(error.message(), "Unexpected character ''' at line 2, column 1");
}

#[test]
fn message_of_a_scanning_error() {
    let error = Tokenizer::new("a b\n c \"d").tokens().unwrap_err();
    assert_eq!(error.message(), "Unterminated string at line 2, column 4");
    let error = Tokenizer::new("\n\n\n   ?").tokens().unwrap_err();
    assert_eq!(error.message(), "Unexpected character '?' at line 4, column 4");
}
