use minilang::ast::Identifier;
use minilang::ast::Node;
use minilang::ast::Statements;
use minilang::lexer::Lexer;
use minilang::lexer::Token;
use minilang::parser::Parser;

#[test]
fn test_let_statments() {
    let input = r#"
let x = 5;
let y = 10;
let foobar = 838383;"#;
    let lexer = Lexer::new(input.to_string());
    let mut parser = Parser::new(lexer);

    let program = parser.parse_program();
    assert!(program.is_some());
    let program = program.unwrap();
    assert_eq!(
        program.statements.len(),
        3,
        "The program does not contain 3 statements"
    );
    let expected_identifiers = ["x", "y", "foobar"];
    for (i, ident) in expected_identifiers.into_iter().enumerate() {
        let statement = program.statements.get(i).unwrap();
        test_let_statment(statement, ident);
    }
}

fn test_let_statment(stm: &Statements, ident: &str) {
    assert_eq!(stm.token_literal(), Token::LET, "Not a let token");
    match stm {
        Statements::LetNode(let_stm) => {
            match &let_stm.name {
                Some(name) => assert_eq!(name.value, ident),
                None => panic!("let statement without a bound name"),
            }
        }
        _ => unreachable!(),
    }
}

#[test]
fn test_return_statments() {
    let input = r#"
return 5;
return 10;
return 993322;"#;
    let lexer = Lexer::new(input.to_string());
    let mut parser = Parser::new(lexer);

    let program = parser.parse_program();
    assert!(program.is_some());
    let program = program.unwrap();
    assert_eq!(
        program.statements.len(),
        3,
        "The program does not contain 3 statements"
    );

    for statement in program.statements {
        assert_eq!(
            statement.token_literal(),
            Token::RETURN,
            "Not a return statment"
        );
    }
}

#[test]
fn test_missing_identifier_fails() {
    let input = "let = 5;";
    let mut parser = Parser::new(Lexer::new(input.to_string()));
    assert!(!parser.has_error());
    let program = parser.parse_program();
    assert!(program.is_none());
    assert!(parser.has_error());
    assert!(!parser.errors.is_empty());
    assert_eq!(parser.errors[0], "Expected IDENT but found =");
}

#[test]
fn test_missing_assign_fails() {
    let input = "let x 5;";
    let mut parser = Parser::new(Lexer::new(input.to_string()));
    let program = parser.parse_program();
    assert!(program.is_none());
    assert_eq!(parser.errors[0], "Expected = but found INT");
}

#[test]
fn test_get_errors_joins_messages() {
    // two bad let statements leave two messages, joined by one space
    let input = "let = 1;\nlet x 2;";
    let mut parser = Parser::new(Lexer::new(input.to_string()));
    assert_eq!(parser.get_errors(), "");
    let program = parser.parse_program();
    assert!(program.is_none());
    assert_eq!(parser.errors.len(), 2);
    assert_eq!(
        parser.get_errors(),
        "Expected IDENT but found = Expected = but found INT"
    );
}

#[test]
fn test_unhandled_tokens_are_skipped() {
    // tokens that introduce no statement are dropped without an error
    let input = "5; foobar; let x = 1;";
    let mut parser = Parser::new(Lexer::new(input.to_string()));
    let program = parser.parse_program();
    assert!(program.is_some());
    let program = program.unwrap();
    assert_eq!(program.statements.len(), 1);
    assert_eq!(program.statements[0].token_literal(), Token::LET);
}

#[test]
fn test_empty_input_parses_to_empty_program() {
    let mut parser = Parser::new(Lexer::new("".to_string()));
    let program = parser.parse_program();
    assert!(program.is_some());
    let program = program.unwrap();
    assert_eq!(program.statements.len(), 0);
    assert_eq!(program.token_literal(), Token::ILLEGAL);
}

#[test]
fn test_program_token_literal_is_first_statement() {
    let mut parser = Parser::new(Lexer::new("return 1; let x = 2;".to_string()));
    let program = parser.parse_program().unwrap();
    assert_eq!(program.statements.len(), 2);
    assert_eq!(program.token_literal(), Token::RETURN);
}

#[test]
fn test_identifier_new() {
    let tok = Token::IDENT(String::from("foo"));
    let ident = Identifier::new(&tok).unwrap();
    assert_eq!(ident.value, "foo");
    assert_eq!(ident.token, tok);
    assert!(Identifier::new(&Token::LET).is_none());
    assert!(Identifier::new(&Token::INT(3)).is_none());
}

#[test]
fn test_missing_terminator_stops_at_end() {
    // a statement without its terminator is cut off by end-of-stream
    let mut parser = Parser::new(Lexer::new("let x = 5".to_string()));
    let program = parser.parse_program();
    assert!(program.is_some());
    assert_eq!(program.unwrap().statements.len(), 1);

    let mut parser = Parser::new(Lexer::new("return 5".to_string()));
    let program = parser.parse_program();
    assert!(program.is_some());
    assert_eq!(program.unwrap().statements.len(), 1);
}
