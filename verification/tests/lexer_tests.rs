use minilang::lexer::Lexer;
use minilang::lexer::Token;
use minilang::lexer::TokenKind;

#[test]
fn test_next_token_simple() {
    let input = "=+(){},;";
    let tests = [
        Token::ASSIGN,
        Token::PLUS,
        Token::LPAREN,
        Token::RPAREN,
        Token::LBRACE,
        Token::RBRACE,
        Token::COMMA,
        Token::SEMICOLON,
        Token::EOF,
    ];

    let mut l = Lexer::new(input.to_string());

    tests.iter().for_each(|test_tok| {
        let tok = l.next_token();
        assert_eq!(tok, *test_tok);
    });
}

#[test]
fn test_next_token_complex() {
    let input = r#"let five = 5;
let ten = 10;
let add = fn(x, y) {
x + y;
};
let result = add(five, ten);
!-/*5;
5 < 10 > 5;

if (5 < 10) {
return true;
} else {
return false;
}

10 == 10;
10 != 9;"#;
    let tests = [
        Token::LET,
        Token::IDENT(String::from("five")),
        Token::ASSIGN,
        Token::INT(5),
        Token::SEMICOLON,
        Token::LET,
        Token::IDENT(String::from("ten")),
        Token::ASSIGN,
        Token::INT(10),
        Token::SEMICOLON,
        Token::LET,
        Token::IDENT(String::from("add")),
        Token::ASSIGN,
        Token::FUNCTION,
        Token::LPAREN,
        Token::IDENT(String::from("x")),
        Token::COMMA,
        Token::IDENT(String::from("y")),
        Token::RPAREN,
        Token::LBRACE,
        Token::IDENT(String::from("x")),
        Token::PLUS,
        Token::IDENT(String::from("y")),
        Token::SEMICOLON,
        Token::RBRACE,
        Token::SEMICOLON,
        Token::LET,
        Token::IDENT(String::from("result")),
        Token::ASSIGN,
        Token::IDENT(String::from("add")),
        Token::LPAREN,
        Token::IDENT(String::from("five")),
        Token::COMMA,
        Token::IDENT(String::from("ten")),
        Token::RPAREN,
        Token::SEMICOLON,
        Token::BANG,
        Token::MINUS,
        Token::SLASH,
        Token::ASTERISK,
        Token::INT(5),
        Token::SEMICOLON,
        Token::INT(5),
        Token::LT,
        Token::INT(10),
        Token::GT,
        Token::INT(5),
        Token::SEMICOLON,
        Token::IF,
        Token::LPAREN,
        Token::INT(5),
        Token::LT,
        Token::INT(10),
        Token::RPAREN,
        Token::LBRACE,
        Token::RETURN,
        Token::TRUE,
        Token::SEMICOLON,
        Token::RBRACE,
        Token::ELSE,
        Token::LBRACE,
        Token::RETURN,
        Token::FALSE,
        Token::SEMICOLON,
        Token::RBRACE,
        Token::INT(10),
        Token::EQ,
        Token::INT(10),
        Token::SEMICOLON,
        Token::INT(10),
        Token::NotEq,
        Token::INT(9),
        Token::SEMICOLON,
        Token::EOF,
    ];

    let mut l = Lexer::new(input.to_string());

    tests.iter().for_each(|test_tok| {
        let tok = l.next_token();
        assert_eq!(tok, *test_tok);
    });
}

#[test]
fn test_end_of_stream_idempotent() {
    let mut l = Lexer::new("abc".to_string());
    assert_eq!(l.next_token(), Token::IDENT(String::from("abc")));
    assert_eq!(l.next_token(), Token::EOF);
    assert_eq!(l.next_token(), Token::EOF);
    assert_eq!(l.next_token(), Token::EOF);
    assert_eq!(l.next_token(), Token::EOF);
}

#[test]
fn test_keywords_and_identifiers() {
    let input = "let fn true false if else return letter fn_ _x x1 returns";
    let tests = [
        Token::LET,
        Token::FUNCTION,
        Token::TRUE,
        Token::FALSE,
        Token::IF,
        Token::ELSE,
        Token::RETURN,
        Token::IDENT(String::from("letter")),
        Token::IDENT(String::from("fn_")),
        Token::IDENT(String::from("_x")),
        Token::IDENT(String::from("x1")),
        Token::IDENT(String::from("returns")),
        Token::EOF,
    ];
    let mut l = Lexer::new(input.to_string());
    for test_tok in tests.iter() {
        assert_eq!(l.next_token(), *test_tok);
    }
}

#[test]
fn test_two_char_operators() {
    let mut l = Lexer::new("==".to_string());
    assert_eq!(l.next_token(), Token::EQ);
    assert_eq!(l.next_token(), Token::EOF);

    let mut l = Lexer::new("!=".to_string());
    assert_eq!(l.next_token(), Token::NotEq);
    assert_eq!(l.next_token(), Token::EOF);

    // with a space between, the one-character tokens come out instead
    let mut l = Lexer::new("= = ! =".to_string());
    assert_eq!(l.next_token(), Token::ASSIGN);
    assert_eq!(l.next_token(), Token::ASSIGN);
    assert_eq!(l.next_token(), Token::BANG);
    assert_eq!(l.next_token(), Token::ASSIGN);
    assert_eq!(l.next_token(), Token::EOF);
}

#[test]
fn test_numeric_round_trip() {
    let mut l = Lexer::new("12345".to_string());
    assert_eq!(l.next_token(), Token::INT(12345));
    assert_eq!(l.next_token(), Token::EOF);

    let mut l = Lexer::new("0".to_string());
    assert_eq!(l.next_token(), Token::INT(0));

    // the largest value that fits in a 64-bit signed integer
    let mut l = Lexer::new("9223372036854775807".to_string());
    assert_eq!(l.next_token(), Token::INT(9223372036854775807));

    // one past it overflows and defaults to zero
    let mut l = Lexer::new("9223372036854775808".to_string());
    assert_eq!(l.next_token(), Token::INT(0));

    // a run much too long also defaults to zero
    let mut l = Lexer::new("99999999999999999999".to_string());
    assert_eq!(l.next_token(), Token::INT(0));

    // a digit run ends at the first non-digit
    let mut l = Lexer::new("42;".to_string());
    assert_eq!(l.next_token(), Token::INT(42));
    assert_eq!(l.next_token(), Token::SEMICOLON);
}

#[test]
fn test_illegal_character() {
    let mut l = Lexer::new("@ #".to_string());
    assert_eq!(l.next_token(), Token::ILLEGAL);
    assert_eq!(l.next_token(), Token::ILLEGAL);
    assert_eq!(l.next_token(), Token::EOF);
}

#[test]
fn test_whitespace_is_skipped() {
    let mut l = Lexer::new("  \t\r\n  let\n\tx  ".to_string());
    assert_eq!(l.next_token(), Token::LET);
    assert_eq!(l.next_token(), Token::IDENT(String::from("x")));
    assert_eq!(l.next_token(), Token::EOF);
}

#[test]
fn test_token_kind_ignores_payload() {
    assert_eq!(Token::IDENT(String::from("x")).kind(), Token::IDENT(String::from("y")).kind());
    assert_eq!(Token::INT(1).kind(), Token::INT(2).kind());
    assert_eq!(Token::ASSIGN.kind(), TokenKind::ASSIGN);
    assert_ne!(Token::ASSIGN.kind(), Token::EQ.kind());
}
