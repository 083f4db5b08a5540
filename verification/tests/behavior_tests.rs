use lox_scanner::scanner::Scanner;
use lox_scanner::tokenizer::Token;
use lox_scanner::tokenizer::TokenType;
use lox_scanner::tokenizer::TokenizerError;

fn scan(source: &str) -> (Vec<Token>, Option<Vec<TokenizerError>>) {
    Scanner::new(source.to_owned()).scan_tokens()
}

fn types(source: &str) -> Vec<TokenType> {
    let (tokens, errors) = scan(source);
    assert!(errors.is_none());
    tokens.into_iter().map(|token| token.token_type).collect()
}

#[test]
fn whitespace_only_yields_eof_with_line_count() {
    let (tokens, errors) = scan("");
    assert!(errors.is_none());
    assert_eq!(tokens, vec![Token { token_type: TokenType::Eof, line: 1 }]);

    let (tokens, errors) = scan(" \t\r");
    assert!(errors.is_none());
    assert_eq!(tokens, vec![Token { token_type: TokenType::Eof, line: 1 }]);

    let (tokens, errors) = scan(" \n\t\n\r\n ");
    assert!(errors.is_none());
    assert_eq!(tokens, vec![Token { token_type: TokenType::Eof, line: 4 }]);
}

#[test]
fn each_punctuation_scans_alone() {
    let cases = [
        ("(", TokenType::LeftParen),
        (")", TokenType::RightParen),
        ("{", TokenType::LeftBrace),
        ("}", TokenType::RightBrace),
        (",", TokenType::Comma),
        (".", TokenType::Dot),
        ("-", TokenType::Minus),
        ("+", TokenType::Plus),
        (";", TokenType::Semicolon),
        ("*", TokenType::Star),
        ("/", TokenType::Slash),
    ];
    for (source, expected) in cases {
        assert_eq!(types(source), vec![expected, TokenType::Eof]);
    }
}

#[test]
fn operators_base_and_extended() {
    let cases = [
        ("=", TokenType::Equal),
        ("==", TokenType::EqualEqual),
        ("!", TokenType::Bang),
        ("!=", TokenType::BangEqual),
        (">", TokenType::Greater),
        (">=", TokenType::GreaterEqual),
        ("<", TokenType::Less),
        ("<=", TokenType::LessEqual),
    ];
    for (source, expected) in cases {
        assert_eq!(types(source), vec![expected, TokenType::Eof]);
    }
}

#[test]
fn comment_contributes_nothing() {
    assert_eq!(types("()// comment"), vec![
        TokenType::LeftParen,
        TokenType::RightParen,
        TokenType::Eof,
    ]);
}

#[test]
fn non_reserved_word_stays_identifier() {
    assert_eq!(types("owo"), vec![TokenType::Identifier("owo".to_string()), TokenType::Eof]);
    assert_eq!(types("android"), vec![
        TokenType::Identifier("android".to_string()),
        TokenType::Eof,
    ]);
}

#[test]
fn reserved_words_are_reclassified() {
    assert_eq!(types("and"), vec![TokenType::And, TokenType::Eof]);
    assert_eq!(types("var while"), vec![TokenType::Var, TokenType::While, TokenType::Eof]);
}

#[test]
fn numbers_with_and_without_fraction() {
    assert_eq!(types("42"), vec![TokenType::Number(42, 0), TokenType::Eof]);
    assert_eq!(types("12.5"), vec![TokenType::Number(12, 5), TokenType::Eof]);
    assert_eq!(types("3."), vec![TokenType::Number(3, 0), TokenType::Eof]);
    assert_eq!(types("0.0"), vec![TokenType::Number(0, 0), TokenType::Eof]);
}

#[test]
fn overlong_digit_run_saturates() {
    assert_eq!(types("99999999999999999999"), vec![
        TokenType::Number(u32::MAX, 0),
        TokenType::Eof,
    ]);
    assert_eq!(types("4294967295"), vec![TokenType::Number(u32::MAX, 0), TokenType::Eof]);
    assert_eq!(types("4294967296"), vec![TokenType::Number(u32::MAX, 0), TokenType::Eof]);
}

#[test]
fn tokens_carry_their_starting_line() {
    let (tokens, errors) = scan("(\n)\nvar");
    assert!(errors.is_none());
    assert_eq!(tokens, vec![
        Token { token_type: TokenType::LeftParen, line: 1 },
        Token { token_type: TokenType::RightParen, line: 2 },
        Token { token_type: TokenType::Var, line: 3 },
        Token { token_type: TokenType::Eof, line: 3 },
    ]);
}

#[test]
fn unexpected_characters_do_not_stop_the_scan() {
    let (tokens, errors) = scan("#@(");
    assert_eq!(errors, Some(vec![
        TokenizerError::UnexpectedCharacter('#', 1),
        TokenizerError::UnexpectedCharacter('@', 1),
    ]));
    let kinds: Vec<TokenType> = tokens.into_iter().map(|t| t.token_type).collect();
    assert_eq!(kinds, vec![TokenType::LeftParen, TokenType::Eof]);
}

#[test]
fn unterminated_string_on_later_line() {
    let (tokens, errors) = scan(")\n\"open");
    assert_eq!(errors, Some(vec![TokenizerError::UnterminatedString(2)]));
    let kinds: Vec<TokenType> = tokens.into_iter().map(|t| t.token_type).collect();
    assert_eq!(kinds, vec![TokenType::RightParen, TokenType::Eof]);
}

#[test]
fn display_strings_are_canonical() {
    assert_eq!(TokenType::LeftParen.display_string(), "(");
    assert_eq!(TokenType::BangEqual.display_string(), "!=");
    assert_eq!(TokenType::And.display_string(), "and");
    assert_eq!(TokenType::Identifier("owo".to_string()).display_string(), "owo");
    assert_eq!(TokenType::String("foo baz".to_string()).display_string(), "foo baz");
    assert_eq!(TokenType::Number(3, 5).display_string(), "3.5");
    assert_eq!(TokenType::Number(120, 0).display_string(), "120.0");
    assert_eq!(TokenType::Number(u32::MAX, 7).display_string(), "4294967295.7");
    assert_eq!(TokenType::Eof.display_string(), "");
}

#[test]
fn token_display_holds_text_and_line() {
    let token = Token::new(TokenType::LeftBrace, 12);
    assert_eq!(token.display_string(), "{ 12");
}

#[test]
fn error_display_names_line_and_cause() {
    let unexpected = TokenizerError::UnexpectedCharacter('@', 1);
    assert_eq!(unexpected.display_string(), "[line 1] Error: Unexpected character: @");
    let unterminated = TokenizerError::UnterminatedString(7);
    assert_eq!(unterminated.display_string(), "Unterminated string on line 7");
}
