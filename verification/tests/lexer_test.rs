use monkey::ast::{Expression, Identifier, LetStatement, Program, Statement};
use monkey::lexer::Lexer;
use monkey::object::{Hashable, StringObj};
use monkey::token::{Token, TokenType};

fn check_tokens(input: &str, tests: &[(TokenType, &str)]) {
    let mut l = Lexer::new(input);
    for (i, tt) in tests.iter().enumerate() {
        let tok = l.next_token();
        assert!(tok.tk_type == tt.0, "tests[{}] - tokentype wrong. expected={:?}, got={:?}", i, tt.0, tok.tk_type);
        assert!(tok.literal == tt.1, "tests[{}] - literal wrong. expected={}, got={}", i, tt.1, tok.literal);
    }
}

#[test]
fn test_next_token1() {
    let tests = [
        (TokenType::ASSIGN, "="),
        (TokenType::PLUS, "+"),
        (TokenType::LPAREN, "("),
        (TokenType::RPAREN, ")"),
        (TokenType::LBRACE, "{"),
        (TokenType::RBRACE, "}"),
        (TokenType::COMMA, ","),
        (TokenType::SEMICOLON, ";"),
        (TokenType::EOF, "")
    ];
    check_tokens("=+(){},;", &tests);
}

#[test]
fn test_next_token2() {
    let input = r"
        let five = 5;
        let ten = 10;
        let add = fn(x, y) { 
            x + y;
        };
        let result = add(five, ten);     
        !-/*5;
        5 < 10 > 5;   

        if (5 < 10) {
            return true;
        } else {
            return false;
        }

        10 == 10;
        10 != 9;
        ";
    let tests = [
        (TokenType::LET, "let"),
        (TokenType::IDENT, "five"),
        (TokenType::ASSIGN, "="),
        (TokenType::INT, "5"),
        (TokenType::SEMICOLON, ";"),
        (TokenType::LET, "let"),
        (TokenType::IDENT, "ten"),
        (TokenType::ASSIGN, "="),
        (TokenType::INT, "10"),
        (TokenType::SEMICOLON, ";"),
        (TokenType::LET, "let"),
        (TokenType::IDENT, "add"),
        (TokenType::ASSIGN, "="),
        (TokenType::FUNCTION, "fn"),
        (TokenType::LPAREN, "("),
        (TokenType::IDENT, "x"),
        (TokenType::COMMA, ","),
        (TokenType::IDENT, "y"),
        (TokenType::RPAREN, ")"),
        (TokenType::LBRACE, "{"),
        (TokenType::IDENT, "x"),
        (TokenType::PLUS, "+"),
        (TokenType::IDENT, "y"),
        (TokenType::SEMICOLON, ";"),
        (TokenType::RBRACE, "}"),
        (TokenType::SEMICOLON, ";"),
        (TokenType::LET, "let"),
        (TokenType::IDENT, "result"),
        (TokenType::ASSIGN, "="),
        (TokenType::IDENT, "add"),
        (TokenType::LPAREN, "("),
        (TokenType::IDENT, "five"),
        (TokenType::COMMA, ","),
        (TokenType::IDENT, "ten"),
        (TokenType::RPAREN, ")"),
        (TokenType::SEMICOLON, ";"),
        (TokenType::BANG, "!"),
        (TokenType::MINUS, "-"),
        (TokenType::SLASH, "/"),
        (TokenType::ASTERISK, "*"),
        (TokenType::INT, "5"),
        (TokenType::SEMICOLON, ";"),
        (TokenType::INT, "5"),
        (TokenType::LT, "<"),
        (TokenType::INT, "10"),
        (TokenType::GT, ">"),
        (TokenType::INT, "5"),
        (TokenType::SEMICOLON, ";"),
        (TokenType::IF, "if"),
        (TokenType::LPAREN, "("),
        (TokenType::INT, "5"),
        (TokenType::LT, "<"),
        (TokenType::INT, "10"),
        (TokenType::RPAREN, ")"),
        (TokenType::LBRACE, "{"),
        (TokenType::RETURN, "return"),
        (TokenType::TRUE, "true"),
        (TokenType::SEMICOLON, ";"),
        (TokenType::RBRACE, "}"),
        (TokenType::ELSE, "else"),
        (TokenType::LBRACE, "{"),
        (TokenType::RETURN, "return"),
        (TokenType::FALSE, "false"),
        (TokenType::SEMICOLON, ";"),
        (TokenType::RBRACE, "}"),
        (TokenType::INT, "10"),
        (TokenType::EQ, "=="),
        (TokenType::INT, "10"),
        (TokenType::SEMICOLON, ";"),
        (TokenType::INT, "10"),
        (TokenType::NOTEQ, "!="),
        (TokenType::INT, "9"),
        (TokenType::SEMICOLON, ";"),
        (TokenType::EOF, "")
    ];
    check_tokens(input, &tests);
}

#[test]
fn lexer_reads_strings_brackets_and_colons() {
    let tests = [
        (TokenType::STRING, "foobar"),
        (TokenType::STRING, "foo bar"),
        (TokenType::LBRACKET, "["),
        (TokenType::INT, "1"),
        (TokenType::COMMA, ","),
        (TokenType::INT, "2"),
        (TokenType::RBRACKET, "]"),
        (TokenType::SEMICOLON, ";"),
        (TokenType::LBRACE, "{"),
        (TokenType::STRING, "foo"),
        (TokenType::COLON, ":"),
        (TokenType::STRING, "bar"),
        (TokenType::RBRACE, "}"),
        (TokenType::ILLEGAL, "@"),
        (TokenType::EOF, ""),
        (TokenType::EOF, ""),
    ];
    check_tokens("\"foobar\" \"foo bar\" [1, 2]; {\"foo\": \"bar\"} @", &tests);
}

fn let_program() -> Program {
    Program {
        statements: vec![Statement::LetStatement(LetStatement {
            token: Token { tk_type: TokenType::LET, literal: String::from("let") },
            name: Identifier {
                token: Token { tk_type: TokenType::IDENT, literal: String::from("myVar") },
                value: String::from("myVar"),
            },
            value: Expression::Identifier(Identifier {
                token: Token { tk_type: TokenType::IDENT, literal: String::from("anotherVar") },
                value: String::from("anotherVar"),
            }),
        })],
    }
}

#[test]
fn ast_test_string() {
    let program = let_program();
    assert!(program.string() == "let myVar = anotherVar;", "program.string() wrong. got={}", program.string());
}

#[test]
fn ast_test_test_string() {
    let program = let_program();
    assert!(program.string() == "let myVar = anotherVar;", "program.string() wrong. got={}", program.string());
}

#[test]
fn test_str_hash_key() {
    let hello1 = StringObj { value: String::from("Hello World") };
    let hello2 = StringObj { value: String::from("Hello World") };
    let diff1 = StringObj { value: String::from("My name is johnny") };
    let diff2 = StringObj { value: String::from("My name is johnny") };
    assert!(hello1.hash_key() == hello2.hash_key(), "strings with same content have different hash keys");
    assert!(diff1.hash_key() == diff2.hash_key(), "strings with same content have different hash keys");
    assert!(hello1.hash_key() != diff1.hash_key(), "strings with different content have same hash keys");
}

#[test]
fn a_byte_outside_ascii_is_one_illegal_token() {
    let mut l = Lexer::new("é \"héllo\" x");
    let t1 = l.next_token();
    assert!(t1.tk_type == TokenType::ILLEGAL);
    assert_eq!(t1.literal, "\u{c3}");
    let t2 = l.next_token();
    assert!(t2.tk_type == TokenType::ILLEGAL);
    assert_eq!(t2.literal, "\u{a9}");
    let t3 = l.next_token();
    assert!(t3.tk_type == TokenType::STRING);
    assert_eq!(t3.literal, "héllo");
    let t4 = l.next_token();
    assert!(t4.tk_type == TokenType::IDENT);
    assert_eq!(t4.literal, "x");
    assert!(l.next_token().tk_type == TokenType::EOF);
}
