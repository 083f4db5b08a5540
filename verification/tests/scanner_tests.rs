use lox_scanner::scanner::Scanner;
use lox_scanner::tokenizer::Token;
use lox_scanner::tokenizer::TokenType;
use lox_scanner::tokenizer::TokenizerError;

fn get_types((tokens, errors): (Vec<Token>, Option<Vec<TokenizerError>>)) -> Vec<TokenType> {
    assert!(errors.is_none());
    tokens.into_iter().map(|token| token.token_type).collect()
}

#[test]
fn test_single_chars() {
    let scanner = Scanner::new("()".to_owned());
    let tokens = get_types(scanner.scan_tokens());
    assert_eq!(tokens, vec![TokenType::LeftParen, TokenType::RightParen, TokenType::Eof]);
    let scanner = Scanner::new("{}".to_owned());
    let tokens = get_types(scanner.scan_tokens());
    assert_eq!(tokens, vec![TokenType::LeftBrace, TokenType::RightBrace, TokenType::Eof]);
    let scanner = Scanner::new(",.-+;/*".to_owned());
    let tokens = get_types(scanner.scan_tokens());
    assert_eq!(
        tokens,
        vec![
            TokenType::Comma,
            TokenType::Dot,
            TokenType::Minus,
            TokenType::Plus,
            TokenType::Semicolon,
            TokenType::Slash,
            TokenType::Star,
            TokenType::Eof,
        ]
    );
}

#[test]
fn test_invalid_char() {
    let scanner = Scanner::new("@".to_owned());
    let (_, errors) = scanner.scan_tokens();

    if let Some(error) = errors {
        assert_eq!(error[0], TokenizerError::UnexpectedCharacter('@', 1));
    } else {
        panic!("Didn't give an error for an invalid character");
    }
}

#[test]
fn test_double_equals() {
    let scanner = Scanner::new("={===}".to_owned());
    let tokens = get_types(scanner.scan_tokens());
    assert_eq!(
        tokens,
        vec![
            TokenType::Equal,
            TokenType::LeftBrace,
            TokenType::EqualEqual,
            TokenType::Equal,
            TokenType::RightBrace,
            TokenType::Eof,
        ]
    );
}

#[test]
fn test_slashes_comments() {
    let scanner = Scanner::new("()// Comment".to_owned());
    let tokens = get_types(scanner.scan_tokens());
    assert_eq!(tokens, vec![TokenType::LeftParen, TokenType::RightParen, TokenType::Eof]);
    let scanner = Scanner::new("/()".to_owned());
    let tokens = get_types(scanner.scan_tokens());
    assert_eq!(
        tokens,
        vec![TokenType::Slash, TokenType::LeftParen, TokenType::RightParen, TokenType::Eof]
    );
}

#[test]
fn test_multi_line_errors() {
    let scanner = Scanner::new("# (// comment\n)  @".to_owned());
    let (tokens, Some(errors)) = scanner.scan_tokens() else {
        panic!("Didn't give error for invalid character");
    };
    let tokens: Vec<TokenType> = tokens.into_iter().map(|t| t.token_type).collect();

    assert_eq!(
        errors,
        vec![
            TokenizerError::UnexpectedCharacter('#', 1),
            TokenizerError::UnexpectedCharacter('@', 2),
        ]
    );
    assert_eq!(tokens, vec![TokenType::LeftParen, TokenType::RightParen, TokenType::Eof]);
}

#[test]
fn test_strings() {
    let scanner = Scanner::new("\"foo baz\"".to_owned());
    let tokens = get_types(scanner.scan_tokens());
    assert_eq!(tokens, vec![TokenType::String("foo baz".to_string()), TokenType::Eof]);
    let scanner = Scanner::new("\"bar ".to_owned());
    let (tokens, Some(errors)) = scanner.scan_tokens() else {
        panic!("Didn't give error for invalid character");
    };
    let tokens: Vec<TokenType> = tokens.into_iter().map(|token| token.token_type).collect();
    assert_eq!(errors, vec![TokenizerError::UnterminatedString(1)]);
    assert_eq!(tokens, vec![TokenType::Eof]);
}
