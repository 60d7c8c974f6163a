use lox_scanner::diagnostics::Diagnostic;
use lox_scanner::diagnostics::DiagnosticKind;
use lox_scanner::scanner::Scanner;
use lox_scanner::token::Literal;
use lox_scanner::token::Token;
use lox_scanner::token::TokenType;

fn scan(contents: &str) -> (Vec<Token>, Vec<Diagnostic>, bool) {
    let mut scanner = Scanner::from(contents);
    let ok = scanner.scan_tokens().is_ok();
    (scanner.tokens, scanner.diagnostics, ok)
}

#[test]
fn test_empty_source_exact() {
    let (tokens, diagnostics, ok) = scan("");
    assert!(ok);
    assert!(diagnostics.is_empty());
    assert_eq!(tokens.len(), 1);
    assert_eq!(tokens[0], Token::new(TokenType::Eof, String::from(""), Literal::Absent, 1));
}

#[test]
fn test_every_single_punctuation_character() {
    let cases = [
        ("(", TokenType::LeftParen),
        (")", TokenType::RightParen),
        ("{", TokenType::LeftBrace),
        ("}", TokenType::RightBrace),
        (".", TokenType::Dot),
        (",", TokenType::Comma),
        (";", TokenType::Semicolon),
        ("+", TokenType::Plus),
        ("-", TokenType::Minus),
        ("*", TokenType::Star),
    ];
    for (text, expected) in cases {
        let (tokens, _, ok) = scan(text);
        assert!(ok);
        assert_eq!(tokens.len(), 2);
        assert_eq!(tokens[0], Token::new(expected, String::from(text), Literal::Absent, 1));
        assert_eq!(tokens[1], Token::new(TokenType::Eof, String::from(""), Literal::Absent, 1));
    }
}

#[test]
fn test_one_and_two_character_operators() {
    let (tokens, _, ok) = scan("!= == <= >= ! = < > /");
    assert!(ok);
    let kinds: Vec<TokenType> = tokens.iter().map(|t| t.token_type).collect();
    assert_eq!(
        kinds,
        vec![
            TokenType::BangEqual,
            TokenType::EqualEqual,
            TokenType::LessEqual,
            TokenType::GreaterEqual,
            TokenType::Bang,
            TokenType::Equal,
            TokenType::Less,
            TokenType::Greater,
            TokenType::Slash,
            TokenType::Eof,
        ]
    );
}

#[test]
fn test_all_reserved_keywords() {
    let (tokens, _, ok) =
        scan("and class else false for fun if nil or print return super this true var while");
    assert!(ok);
    let kinds: Vec<TokenType> = tokens.iter().map(|t| t.token_type).collect();
    assert_eq!(
        kinds,
        vec![
            TokenType::And,
            TokenType::Class,
            TokenType::Else,
            TokenType::False,
            TokenType::For,
            TokenType::Fun,
            TokenType::If,
            TokenType::Nil,
            TokenType::Or,
            TokenType::Print,
            TokenType::Return,
            TokenType::Super,
            TokenType::This,
            TokenType::True,
            TokenType::Var,
            TokenType::While,
            TokenType::Eof,
        ]
    );
}

#[test]
fn test_keyword_prefix_is_identifier() {
    let (tokens, _, ok) = scan("andy");
    assert!(ok);
    assert_eq!(tokens[0], Token::new(TokenType::Identifier, String::from("andy"), Literal::Absent, 1));
}

#[test]
fn test_identifier_with_digits() {
    let (tokens, _, ok) = scan("a1_b2");
    assert!(ok);
    assert_eq!(tokens[0], Token::new(TokenType::Identifier, String::from("a1_b2"), Literal::Absent, 1));
}

#[test]
fn test_integer_number() {
    let (tokens, _, ok) = scan("1234");
    assert!(ok);
    assert_eq!(
        tokens[0],
        Token::new(TokenType::Number, String::from("1234"), Literal::Num(String::from("1234")), 1)
    );
    match &tokens[0].literal {
        Literal::Num(text) => assert_eq!(text.parse::<f64>().unwrap(), 1234.0),
        _ => panic!("expected a number literal"),
    }
}

#[test]
fn test_trailing_dot_is_not_part_of_number() {
    let (tokens, _, ok) = scan("1234.");
    assert!(ok);
    let kinds: Vec<TokenType> = tokens.iter().map(|t| t.token_type).collect();
    assert_eq!(kinds, vec![TokenType::Number, TokenType::Dot, TokenType::Eof]);
    assert_eq!(tokens[0].lexeme, "1234");
}

#[test]
fn test_method_call_after_number() {
    let (tokens, _, ok) = scan("12.34.56.abs");
    assert!(ok);
    let kinds: Vec<TokenType> = tokens.iter().map(|t| t.token_type).collect();
    assert_eq!(
        kinds,
        vec![
            TokenType::Number,
            TokenType::Dot,
            TokenType::Number,
            TokenType::Dot,
            TokenType::Identifier,
            TokenType::Eof,
        ]
    );
    assert_eq!(tokens[0].lexeme, "12.34");
    assert_eq!(tokens[2].lexeme, "56");
}

#[test]
fn test_unterminated_string() {
    let (tokens, diagnostics, ok) = scan("\"abc");
    assert!(!ok);
    assert_eq!(tokens.len(), 1);
    assert_eq!(tokens[0].token_type, TokenType::Eof);
    assert_eq!(diagnostics.len(), 1);
    assert_eq!(diagnostics[0].line, 1);
    assert_eq!(diagnostics[0].kind, DiagnosticKind::UnterminatedString);
    assert_eq!(diagnostics[0].render(), "[line 1] Error: Unterminated string.");
}

#[test]
fn test_unterminated_string_reports_last_line() {
    let (tokens, diagnostics, ok) = scan("(\n\"a\nb");
    assert!(!ok);
    let kinds: Vec<TokenType> = tokens.iter().map(|t| t.token_type).collect();
    assert_eq!(kinds, vec![TokenType::LeftParen, TokenType::Eof]);
    assert_eq!(diagnostics.len(), 1);
    assert_eq!(diagnostics[0].line, 3);
}

#[test]
fn test_string_with_newline_inside() {
    let (tokens, _, ok) = scan("\"a\nb\"+");
    assert!(ok);
    assert_eq!(
        tokens[0],
        Token::new(
            TokenType::String,
            String::from("\"a\nb\""),
            Literal::Str(String::from("a\nb")),
            2,
        )
    );
    assert_eq!(tokens[1], Token::new(TokenType::Plus, String::from("+"), Literal::Absent, 2));
}

#[test]
fn test_backslash_is_literal_inside_string() {
    let (tokens, _, ok) = scan("\"a\\\\n\"");
    assert!(ok);
    assert_eq!(tokens[0].literal, Literal::Str(String::from("a\\\\n")));
}

#[test]
fn test_unexpected_characters_keep_surrounding_tokens() {
    let (tokens, diagnostics, ok) = scan(",.$(#");
    assert!(!ok);
    let kinds: Vec<TokenType> = tokens.iter().map(|t| t.token_type).collect();
    assert_eq!(kinds, vec![TokenType::Comma, TokenType::Dot, TokenType::LeftParen, TokenType::Eof]);
    assert_eq!(diagnostics.len(), 2);
    assert_eq!(diagnostics[0].kind, DiagnosticKind::UnexpectedChar('$'));
    assert_eq!(diagnostics[0].line, 1);
    assert_eq!(diagnostics[0].render(), "[line 1] Error: Unexpected character: $");
    assert_eq!(diagnostics[1].kind, DiagnosticKind::UnexpectedChar('#'));
    let concatenated: String = tokens.iter().map(|t| t.lexeme.as_str()).collect();
    assert_eq!(concatenated, ",.(");
}

#[test]
fn test_tokens_after_error_are_kept() {
    let (tokens, diagnostics, ok) = scan("$(");
    assert!(!ok);
    let kinds: Vec<TokenType> = tokens.iter().map(|t| t.token_type).collect();
    assert_eq!(kinds, vec![TokenType::LeftParen, TokenType::Eof]);
    assert_eq!(diagnostics.len(), 1);
}

#[test]
fn test_line_numbers_follow_newlines() {
    let (tokens, _, ok) = scan("(\n)\n\n}");
    assert!(ok);
    assert_eq!(tokens[0], Token::new(TokenType::LeftParen, String::from("("), Literal::Absent, 1));
    assert_eq!(tokens[1], Token::new(TokenType::RightParen, String::from(")"), Literal::Absent, 2));
    assert_eq!(tokens[2], Token::new(TokenType::RightBrace, String::from("}"), Literal::Absent, 4));
    assert_eq!(tokens[3], Token::new(TokenType::Eof, String::from(""), Literal::Absent, 4));
}

#[test]
fn test_comment_ends_at_newline() {
    let (tokens, _, ok) = scan("//x\n(");
    assert!(ok);
    assert_eq!(tokens.len(), 2);
    assert_eq!(tokens[0], Token::new(TokenType::LeftParen, String::from("("), Literal::Absent, 2));
    assert_eq!(tokens[1], Token::new(TokenType::Eof, String::from(""), Literal::Absent, 2));
}

#[test]
fn test_last_token_is_always_eof() {
    for text in ["", "var x = 1;", "\"open", "$$$", "//only a comment"] {
        let mut scanner = Scanner::from(text);
        let _ = scanner.scan_tokens();
        let last = scanner.tokens.last().expect("token sequence is never empty");
        assert_eq!(last.token_type, TokenType::Eof);
        let eofs = scanner
            .tokens
            .iter()
            .filter(|t| t.token_type == TokenType::Eof)
            .count();
        assert_eq!(eofs, 1);
    }
}

#[test]
fn test_non_ascii_letter_is_unexpected() {
    let (tokens, diagnostics, ok) = scan("é");
    assert!(!ok);
    assert_eq!(tokens.len(), 1);
    assert_eq!(diagnostics.len(), 1);
    assert_eq!(diagnostics[0].kind, DiagnosticKind::UnexpectedChar('é'));
}

#[test]
fn test_scan_token_single_step() {
    let mut scanner = Scanner::from("+-");
    scanner.scan_token();
    assert_eq!(scanner.tokens.len(), 1);
    assert_eq!(scanner.tokens[0], Token::new(TokenType::Plus, String::from("+"), Literal::Absent, 1));
    assert_eq!(scanner.current, 1);
}

#[test]
fn test_scan_token_at_end_does_nothing() {
    let mut scanner = Scanner::from("");
    scanner.scan_token();
    assert!(scanner.tokens.is_empty());
    assert!(scanner.diagnostics.is_empty());
    assert_eq!(scanner.current, 0);
    assert_eq!(scanner.line, 1);
}

#[test]
fn test_diagnostic_render_multi_digit_line() {
    let d = Diagnostic { line: 42, kind: DiagnosticKind::UnterminatedString };
    assert_eq!(d.render(), "[line 42] Error: Unterminated string.");
    let d2 = Diagnostic { line: 107, kind: DiagnosticKind::UnexpectedChar('#') };
    assert_eq!(d2.render(), "[line 107] Error: Unexpected character: #");
}
