use lox_scanner::scanner::Scanner;
use lox_scanner::token::Literal;
use lox_scanner::token::Token;
use lox_scanner::token::TokenType;

#[test]
fn test_empty_source() {
    let contents = "";
    let mut scanner = Scanner::from(contents);

    let tokens = scanner.scan_tokens().unwrap();
    let expected_tokens = [Token::new(TokenType::Eof, String::from(""), Literal::Absent, 1)];
    for (i, token) in tokens.iter().enumerate() {
        assert_eq!(*token, expected_tokens[i])
    }
}

#[test]
fn test_parantheses() {
    let contents = "(()";
    let mut scanner = Scanner::from(contents);

    let tokens = scanner.scan_tokens().unwrap();
    let expected_tokens = [
        Token::new(TokenType::LeftParen, String::from("("), Literal::Absent, 1),
        Token::new(TokenType::LeftParen, String::from("("), Literal::Absent, 1),
        Token::new(TokenType::RightParen, String::from(")"), Literal::Absent, 1),
        Token::new(TokenType::Eof, String::from(""), Literal::Absent, 1),
    ];
    for (i, token) in tokens.iter().enumerate() {
        assert_eq!(*token, expected_tokens[i])
    }
}

#[test]
fn test_braces() {
    let contents = "{{}}";
    let mut scanner = Scanner::from(contents);

    let tokens = scanner.scan_tokens().unwrap();
    let expected_tokens = [
        Token::new(TokenType::LeftBrace, String::from("{"), Literal::Absent, 1),
        Token::new(TokenType::LeftBrace, String::from("{"), Literal::Absent, 1),
        Token::new(TokenType::RightBrace, String::from("}"), Literal::Absent, 1),
        Token::new(TokenType::RightBrace, String::from("}"), Literal::Absent, 1),
        Token::new(TokenType::Eof, String::from(""), Literal::Absent, 1),
    ];
    for (i, token) in tokens.iter().enumerate() {
        assert_eq!(*token, expected_tokens[i])
    }
}

#[test]
fn test_rest_of_single_character_tokens() {
    let contents = "({*.,+*})";
    let mut scanner = Scanner::from(contents);

    let tokens = scanner.scan_tokens().unwrap();
    let expected_tokens = [
        Token::new(TokenType::LeftParen, String::from("("), Literal::Absent, 1),
        Token::new(TokenType::LeftBrace, String::from("{"), Literal::Absent, 1),
        Token::new(TokenType::Star, String::from("*"), Literal::Absent, 1),
        Token::new(TokenType::Dot, String::from("."), Literal::Absent, 1),
        Token::new(TokenType::Comma, String::from(","), Literal::Absent, 1),
        Token::new(TokenType::Plus, String::from("+"), Literal::Absent, 1),
        Token::new(TokenType::Star, String::from("*"), Literal::Absent, 1),
        Token::new(TokenType::RightBrace, String::from("}"), Literal::Absent, 1),
        Token::new(TokenType::RightParen, String::from(")"), Literal::Absent, 1),
        Token::new(TokenType::Eof, String::from(""), Literal::Absent, 1),
    ];
    for (i, token) in tokens.iter().enumerate() {
        assert_eq!(*token, expected_tokens[i])
    }
}

#[test]
fn test_errors() {
    let contents = ",.$(#";
    let mut scanner = Scanner::from(contents);

    let res = scanner.scan_tokens();
    let expected_tokens = [
        Token::new(TokenType::Comma, String::from(","), Literal::Absent, 1),
        Token::new(TokenType::Dot, String::from("."), Literal::Absent, 1),
        Token::new(TokenType::LeftParen, String::from("("), Literal::Absent, 1),
        Token::new(TokenType::Eof, String::from(""), Literal::Absent, 1),
    ];
    match res {
        Err(tokens) => {
            for (i, token) in tokens.iter().enumerate() {
                assert_eq!(*token, expected_tokens[i])
            }
        }
        _ => {
            res.expect_err("Test is incorrect, this should be an error");
        }
    }
}

#[test]
fn scanner_test_assignment_and_equal_mix() {
    let contents = "=(==)";
    let mut scanner = Scanner::from(contents);

    let tokens = scanner.scan_tokens().unwrap();
    let expected_tokens = [
        Token::new(TokenType::Equal, String::from("="), Literal::Absent, 1),
        Token::new(TokenType::LeftParen, String::from("("), Literal::Absent, 1),
        Token::new(TokenType::EqualEqual, String::from("=="), Literal::Absent, 1),
        Token::new(TokenType::RightParen, String::from(")"), Literal::Absent, 1),
        Token::new(TokenType::Eof, String::from(""), Literal::Absent, 1),
    ];
    for (i, token) in tokens.iter().enumerate() {
        assert_eq!(*token, expected_tokens[i])
    }
}

#[test]
fn scanner_test_ignore_comment() {
    let contents = "(//this is a comment";
    let mut scanner = Scanner::from(contents);

    let tokens = scanner.scan_tokens().unwrap();
    let expected_tokens = [
        Token::new(TokenType::LeftParen, String::from("("), Literal::Absent, 1),
        Token::new(TokenType::Eof, String::from(""), Literal::Absent, 1),
    ];
    for (i, token) in tokens.iter().enumerate() {
        assert_eq!(*token, expected_tokens[i])
    }
}

#[test]
fn scanner_test_unicode() {
    let contents = "(///Unicode:£§᯽☺♣)";
    let mut scanner = Scanner::from(contents);

    let tokens = scanner.scan_tokens().unwrap();
    let expected_tokens = [
        Token::new(TokenType::LeftParen, String::from("("), Literal::Absent, 1),
        Token::new(TokenType::Eof, String::from(""), Literal::Absent, 1),
    ];
    for (i, token) in tokens.iter().enumerate() {
        assert_eq!(*token, expected_tokens[i])
    }
}

#[test]
fn scanner_test_ignore_whitespace() {
    let contents = " /  \t \r";
    let mut scanner = Scanner::from(contents);

    let tokens = scanner.scan_tokens().unwrap();
    let expected_tokens = [
        Token::new(TokenType::Slash, String::from("/"), Literal::Absent, 1),
        Token::new(TokenType::Eof, String::from(""), Literal::Absent, 1),
    ];
    for (i, token) in tokens.iter().enumerate() {
        assert_eq!(*token, expected_tokens[i])
    }
}

#[test]
fn scanner_test_string_literal() {
    let contents = "\"foo bar\"";
    let mut scanner = Scanner::from(contents);

    let tokens = scanner.scan_tokens().unwrap();
    let expected_tokens = [
        Token::new(
            TokenType::String,
            String::from("\"foo bar\""),
            Literal::Str("foo bar".to_string()),
            1,
        ),
        Token::new(TokenType::Eof, String::from(""), Literal::Absent, 1),
    ];
    for (i, token) in tokens.iter().enumerate() {
        assert_eq!(*token, expected_tokens[i])
    }
}

#[test]
fn scanner_test_numbers() {
    let contents = "1234.1234";
    let mut scanner = Scanner::from(contents);

    let tokens = scanner.scan_tokens().unwrap();
    let expected_tokens = [
        Token::new(
            TokenType::Number,
            String::from("1234.1234"),
            Literal::Num(String::from("1234.1234")),
            1,
        ),
        Token::new(TokenType::Eof, String::from(""), Literal::Absent, 1),
    ];
    for (i, token) in tokens.iter().enumerate() {
        assert_eq!(*token, expected_tokens[i])
    }
    match &tokens[0].literal {
        Literal::Num(text) => assert_eq!(text.parse::<f64>().unwrap(), 1234.1234),
        _ => panic!("expected a number literal"),
    }
}

#[test]
fn scanner_test_identifiers() {
    let contents = "foo bar _hello";
    let mut scanner = Scanner::from(contents);

    let tokens = scanner.scan_tokens().unwrap();
    let expected_tokens = [
        Token::new(TokenType::Identifier, String::from("foo"), Literal::Absent, 1),
        Token::new(TokenType::Identifier, String::from("bar"), Literal::Absent, 1),
        Token::new(TokenType::Identifier, String::from("_hello"), Literal::Absent, 1),
        Token::new(TokenType::Eof, String::from(""), Literal::Absent, 1),
    ];
    for (i, token) in tokens.iter().enumerate() {
        assert_eq!(*token, expected_tokens[i])
    }
}

#[test]
fn scanner_test_reserved_keywords() {
    let contents = "and";
    let mut scanner = Scanner::from(contents);

    let tokens = scanner.scan_tokens().unwrap();
    let expected_tokens = [
        Token::new(TokenType::And, String::from("and"), Literal::Absent, 1),
        Token::new(TokenType::Eof, String::from(""), Literal::Absent, 1),
    ];
    for (i, token) in tokens.iter().enumerate() {
        assert_eq!(*token, expected_tokens[i])
    }
}
