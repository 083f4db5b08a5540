use lox_scanner::tokenizer::Token;
use lox_scanner::tokenizer::TokenType;

#[test]
fn test_get_with_equals() {
    let get = TokenType::get_with_equals;
    assert_eq!(get(&TokenType::Bang), Some(TokenType::BangEqual));
    assert_eq!(get(&TokenType::Equal), Some(TokenType::EqualEqual));
    assert_eq!(get(&TokenType::Greater), Some(TokenType::GreaterEqual));
    assert_eq!(get(&TokenType::Less), Some(TokenType::LessEqual));
    assert_eq!(get(&TokenType::LeftParen), None);
}

#[test]
fn test_get_from_char() {
    let get = Token::from_char;
    assert_eq!(get('('), Some(TokenType::LeftParen));
    assert_eq!(get(';'), Some(TokenType::Semicolon));
    assert_eq!(get('%'), None);
}

#[test]
fn test_get_from_string() {
    let get = Token::from_string;
    assert_eq!(get("and"), Some(TokenType::And));
    assert_eq!(get("or"), Some(TokenType::Or));
    assert_eq!(get("owo"), None);
}
