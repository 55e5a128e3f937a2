//! Scanner behaviour: token streams, positions, and diagnostics.

use apl::lex_errors::{LexError, LexErrorType};
use apl::scanner::{scan, Scanner};
use apl::tokens::{Token, TokenType};

fn scan_with_errors(source: &str) -> (Vec<Token>, Vec<LexError>) {
    scan(source)
}

fn kinds(tokens: &[Token]) -> Vec<TokenType> {
    tokens.iter().map(|t| t.token_type.clone()).collect()
}

fn assert_has_error(errors: &[LexError], expected_type: LexErrorType, line: usize, column: usize) {
    assert!(
        errors
            .iter()
            .any(|e| e.error_type == expected_type && e.line == line && e.column == column),
        "Expected {:?} at {}:{}, but didn't find it in {:?}",
        expected_type,
        line,
        column,
        errors
    );
}

#[test]
fn scan_variable_declaration_int() {
    let mut scanner = Scanner::new("let a = 10;");
    let tokens = scanner.scan_tokens();
    assert_eq!(
        kinds(&tokens),
        vec![
            TokenType::Let,
            TokenType::Identifier("a".to_string()),
            TokenType::Equals,
            TokenType::Number("10".to_string()),
            TokenType::SemiColon,
            TokenType::Eof,
        ]
    );
}

#[test]
fn scan_variable_declaration_float() {
    let mut scanner = Scanner::new("let a = 10.0;");
    let tokens = scanner.scan_tokens();
    assert_eq!(
        kinds(&tokens),
        vec![
            TokenType::Let,
            TokenType::Identifier("a".to_string()),
            TokenType::Equals,
            TokenType::Number("10.0".to_string()),
            TokenType::SemiColon,
            TokenType::Eof,
        ]
    );
}

#[test]
fn scan_variable_declaration_string_literal() {
    let mut scanner = Scanner::new(r#"let a = "test""#);
    let tokens = scanner.scan_tokens();
    assert_eq!(
        kinds(&tokens),
        vec![
            TokenType::Let,
            TokenType::Identifier("a".to_string()),
            TokenType::Equals,
            TokenType::String("test".to_string()),
            TokenType::Eof,
        ]
    );
}

#[test]
fn unexpected_character_error() {
    let source = "let a = @;";
    let (tokens, errors) = scan_with_errors(source);

    // Still produces every valid token around the bad character.
    assert_eq!(
        kinds(&tokens),
        vec![
            TokenType::Let,
            TokenType::Identifier("a".to_string()),
            TokenType::Equals,
            TokenType::SemiColon,
            TokenType::Eof,
        ]
    );
    assert_eq!(errors.len(), 1);
    assert_has_error(&errors, LexErrorType::UnexpectedCharacter('@'), 1, 10);
}

#[test]
fn number_format_errors_multiple_decimal_points() {
    let (tokens, errors1) = scan_with_errors("123.45.67");
    assert_has_error(&errors1, LexErrorType::TooManyDecimalPoints, 1, 10);
    // The malformed token is still emitted as a number.
    assert_eq!(tokens[0].token_type, TokenType::Number("123.45.67".to_string()));
}

#[test]
fn number_format_errors_trailing_decimal_points() {
    let (tokens, errors2) = scan_with_errors("42.");
    assert_has_error(&errors2, LexErrorType::TrailingDecimalPoint, 1, 4);
    assert_eq!(tokens[0].token_type, TokenType::Number("42.".to_string()));
}

#[test]
fn string_literal_errors() {
    // Unterminated string: the token still carries everything accumulated.
    let (tokens, errors) = scan_with_errors(r#"let s = "unterminated"#);
    assert_eq!(
        tokens[tokens.len() - 2].token_type,
        TokenType::String("unterminated".to_string())
    );
    assert_eq!(errors.len(), 1);
    assert_has_error(&errors, LexErrorType::UnterminatedString, 1, 22);

    // Invalid escape sequence: the escaped character still contributes.
    let (tokens2, errors2) = scan_with_errors(r#""invalid \x escape""#);
    assert_has_error(&errors2, LexErrorType::InvalidEscape('x'), 1, 12);
    assert_eq!(tokens2[0].token_type, TokenType::String("invalid x escape".to_string()));
}

#[test]
fn operator_errors() {
    // A single ! without = is valid syntax.
    let (tokens, errors) = scan_with_errors("if !true");
    assert_eq!(
        kinds(&tokens),
        vec![
            TokenType::If,
            TokenType::Bang,
            TokenType::Identifier("true".to_string()),
            TokenType::Eof,
        ]
    );
    assert!(errors.is_empty());
}

#[test]
fn error_positions_are_correct() {
    let source = "\nlet x = 123.45.67\nlet y = \"unclosde";
    let (_, errors) = scan_with_errors(source);
    assert_has_error(&errors, LexErrorType::TooManyDecimalPoints, 2, 19);
    assert_has_error(&errors, LexErrorType::UnterminatedString, 3, 19);
}

#[test]
fn char_literals() {
    let mut scanner = Scanner::new("'a'");
    assert_eq!(
        scanner.scan_char_literal().unwrap().token_type,
        TokenType::Char('a')
    );

    let mut scanner = Scanner::new("'\\n'");
    assert_eq!(
        scanner.scan_char_literal().unwrap().token_type,
        TokenType::Char('\n')
    );

    let mut scanner = Scanner::new("''");
    scanner.scan_char_literal();
    assert!(scanner
        .errors
        .iter()
        .any(|e| matches!(e.error_type, LexErrorType::EmptyCharLiteral)));

    let mut scanner = Scanner::new("'ab'");
    scanner.scan_char_literal();
    assert!(scanner
        .errors
        .iter()
        .any(|e| matches!(e.error_type, LexErrorType::TooManyChars)));
}

#[test]
fn char_literal_unterminated() {
    let mut scanner = Scanner::new("'a");
    scanner.scan_char_literal();
    assert!(scanner
        .errors
        .iter()
        .any(|e| matches!(e.error_type, LexErrorType::UnterminatedChar)));
}

#[test]
fn unterminated_string_with_dangling_backslash_records_one_error() {
    // Running out of input behind a backslash is one missing closing
    // quote, not two problems.
    let (tokens, errors) = scan_with_errors("\"ab\\");
    assert_eq!(tokens[0].token_type, TokenType::String("ab".to_string()));
    assert_eq!(errors.len(), 1);
    assert!(matches!(errors[0].error_type, LexErrorType::UnterminatedString));
}

#[test]
fn unterminated_char_with_dangling_backslash_records_one_error() {
    let mut scanner = Scanner::new("'\\");
    scanner.scan_char_literal();
    assert_eq!(scanner.errors.len(), 1);
    assert!(matches!(scanner.errors[0].error_type, LexErrorType::UnterminatedChar));
}

#[test]
fn escape_fidelity_in_strings() {
    // Each supported escape decodes to its character, never the pair.
    let (tokens, errors) = scan_with_errors("\"a\\nb\\tc\\\"d\\\\e\"");
    assert!(errors.is_empty());
    assert_eq!(
        tokens[0].token_type,
        TokenType::String("a\nb\tc\"d\\e".to_string())
    );
}

#[test]
fn token_positions_track_newlines() {
    // Positions record the place after the lexeme; a newline moves to the
    // next line, whose column starts past the newline itself.
    let (tokens, errors) = scan_with_errors("ab\ncd");
    assert!(errors.is_empty());
    assert_eq!(tokens[0].token_type, TokenType::Identifier("ab".to_string()));
    assert_eq!((tokens[0].line, tokens[0].column), (1, 3));
    assert_eq!(tokens[1].token_type, TokenType::Identifier("cd".to_string()));
    assert_eq!((tokens[1].line, tokens[1].column), (2, 4));
    assert_eq!(tokens[2].token_type, TokenType::Eof);
}

#[test]
fn comments_produce_no_tokens() {
    let (tokens, errors) = scan_with_errors("let a = 1; // trailing\n/* block\ncomment */ let");
    assert!(errors.is_empty());
    assert_eq!(
        kinds(&tokens),
        vec![
            TokenType::Let,
            TokenType::Identifier("a".to_string()),
            TokenType::Equals,
            TokenType::Number("1".to_string()),
            TokenType::SemiColon,
            TokenType::Let,
            TokenType::Eof,
        ]
    );
}

#[test]
fn two_character_operators() {
    let (tokens, errors) = scan_with_errors("== != >= <= .. > < = !");
    assert!(errors.is_empty());
    assert_eq!(
        kinds(&tokens),
        vec![
            TokenType::EqualsEquals,
            TokenType::BangEquals,
            TokenType::GreaterThanOrEqual,
            TokenType::LessThanOrEqual,
            TokenType::Range,
            TokenType::GreaterThan,
            TokenType::LessThan,
            TokenType::Equals,
            TokenType::Bang,
            TokenType::Eof,
        ]
    );
}

#[test]
fn snippet_carries_source_line() {
    let (_, errors) = scan_with_errors("let x = 1;\nlet y = @;");
    assert_eq!(errors.len(), 1);
    assert_eq!(errors[0].snippet, "let y = @;");
    // After a newline the column counts the newline as the first column
    // of the new line, so the ninth character of line 2 ends at column 11.
    assert_eq!((errors[0].line, errors[0].column), (2, 11));
}
