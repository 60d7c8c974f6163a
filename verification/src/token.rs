//! The token model: token categories, decoded literal values, and the
//! `Token` value produced for every recognized lexical unit.
//!
//! A number literal is carried as its exact decimal text (a maximal digit
//! run, optionally followed by `.` and a further digit run). The scanner
//! guarantees that text is syntactically a decimal number, so a caller
//! that wants the value as a machine float can decode it without a
//! failure case.

use vstd::prelude::*;

verus! {

/// The closed set of token categories the scanner can produce.
#[derive(Debug, Clone, Copy, PartialEq, Eq, Structural)]
pub enum TokenType {
    // single character tokens
    LeftParen,
    RightParen,
    LeftBrace,
    RightBrace,
    Comma,
    Dot,
    Minus,
    Plus,
    Semicolon,
    Star,
    // one or two character tokens
    Bang,
    BangEqual,
    Equal,
    EqualEqual,
    Less,
    LessEqual,
    Greater,
    GreaterEqual,
    Slash,
    // literals
    String,
    Number,
    // identifiers
    Identifier,
    // reserved keywords
    And,
    Class,
    Else,
    False,
    For,
    Fun,
    If,
    Nil,
    Or,
    Print,
    Return,
    Super,
    This,
    True,
    Var,
    While,
    // end-of-stream marker
    Eof,
}

/// The decoded value attached to a token: absent, the payload of a string
/// literal (surrounding quotes stripped), or the decimal text of a number
/// literal.
#[derive(Debug, Clone, PartialEq)]
pub enum Literal {
    Absent,
    Str(String),
    Num(String),
}

/// Mathematical image of a [`Literal`]: the carried text as a `Seq<char>`.
pub enum SpecLiteral {
    Absent,
    Str(Seq<char>),
    Num(Seq<char>),
}

impl View for Literal {
    type V = SpecLiteral;

    open spec fn view(&self) -> SpecLiteral {
        match self {
            Literal::Absent => SpecLiteral::Absent,
            Literal::Str(s) => SpecLiteral::Str(s@),
            Literal::Num(s) => SpecLiteral::Num(s@),
        }
    }
}

/// One classified unit of source text: its category, the exact source
/// substring consumed (the lexeme), an optional decoded literal, and the
/// 1-based line it was recognized on.
#[derive(Debug, Clone, PartialEq)]
pub struct Token {
    pub token_type: TokenType,
    pub lexeme: String,
    pub literal: Literal,
    pub line: usize,
}

/// Mathematical image of a [`Token`].
pub struct SpecToken {
    pub token_type: TokenType,
    pub lexeme: Seq<char>,
    pub literal: SpecLiteral,
    pub line: int,
}

impl View for Token {
    type V = SpecToken;

    open spec fn view(&self) -> SpecToken {
        SpecToken {
            token_type: self.token_type,
            lexeme: self.lexeme@,
            literal: self.literal@,
            line: self.line as int,
        }
    }
}

/// Holds when a token's literal matches its category: only string and
/// number tokens carry a decoded value, and they always do.
pub open spec fn token_literal_wf(t: SpecToken) -> bool {
    match t.literal {
        SpecLiteral::Absent => t.token_type != TokenType::String && t.token_type != TokenType::Number,
        SpecLiteral::Str(_) => t.token_type == TokenType::String,
        SpecLiteral::Num(_) => t.token_type == TokenType::Number,
    }
}

impl Token {
    /// Builds a token from its parts. Lines are 1-based; a line of zero
    /// never names a source position.
    pub fn new(token_type: TokenType, lexeme: String, literal: Literal, line: usize) -> (t: Token)
        requires
            line >= 1,
        ensures
            t.token_type == token_type,
            t.lexeme == lexeme,
            t.literal == literal,
            t.line == line,
    {
        Token { token_type, lexeme, literal, line }
    }
}

impl TokenType {
    /// The fixed display name of each token category.
    pub open spec fn spec_name(self) -> Seq<char> {
        match self {
            TokenType::Eof => "EOF"@,
            TokenType::LeftParen => "LEFT_PAREN"@,
            TokenType::RightParen => "RIGHT_PAREN"@,
            TokenType::LeftBrace => "LEFT_BRACE"@,
            TokenType::RightBrace => "RIGHT_BRACE"@,
            TokenType::Comma => "COMMA"@,
            TokenType::Dot => "DOT"@,
            TokenType::Minus => "MINUS"@,
            TokenType::Plus => "PLUS"@,
            TokenType::Semicolon => "SEMICOLON"@,
            TokenType::Star => "STAR"@,
            TokenType::Bang => "BANG"@,
            TokenType::BangEqual => "BANG_EQUAL"@,
            TokenType::Equal => "EQUAL"@,
            TokenType::EqualEqual => "EQUAL_EQUAL"@,
            TokenType::Less => "LESS"@,
            TokenType::LessEqual => "LESS_EQUAL"@,
            TokenType::Greater => "GREATER"@,
            TokenType::GreaterEqual => "GREATER_EQUAL"@,
            TokenType::Slash => "SLASH"@,
            TokenType::String => "STRING"@,
            TokenType::Number => "NUMBER"@,
            TokenType::Identifier => "IDENTIFIER"@,
            TokenType::And => "AND"@,
            TokenType::Class => "CLASS"@,
            TokenType::Else => "ELSE"@,
            TokenType::False => "FALSE"@,
            TokenType::For => "FOR"@,
            TokenType::Fun => "FUN"@,
            TokenType::If => "IF"@,
            TokenType::Nil => "NIL"@,
            TokenType::Or => "OR"@,
            TokenType::Print => "PRINT"@,
            TokenType::Return => "RETURN"@,
            TokenType::Super => "SUPER"@,
            TokenType::This => "THIS"@,
            TokenType::True => "TRUE"@,
            TokenType::Var => "VAR"@,
            TokenType::While => "WHILE"@,
        }
    }

    /// Returns the display name of this token category.
    pub fn name(&self) -> (s: &'static str)
        ensures
            s@ == self.spec_name(),
    {
        match self {
            TokenType::Eof => "EOF",
            TokenType::LeftParen => "LEFT_PAREN",
            TokenType::RightParen => "RIGHT_PAREN",
            TokenType::LeftBrace => "LEFT_BRACE",
            TokenType::RightBrace => "RIGHT_BRACE",
            TokenType::Comma => "COMMA",
            TokenType::Dot => "DOT",
            TokenType::Minus => "MINUS",
            TokenType::Plus => "PLUS",
            TokenType::Semicolon => "SEMICOLON",
            TokenType::Star => "STAR",
            TokenType::Bang => "BANG",
            TokenType::BangEqual => "BANG_EQUAL",
            TokenType::Equal => "EQUAL",
            TokenType::EqualEqual => "EQUAL_EQUAL",
            TokenType::Less => "LESS",
            TokenType::LessEqual => "LESS_EQUAL",
            TokenType::Greater => "GREATER",
            TokenType::GreaterEqual => "GREATER_EQUAL",
            TokenType::Slash => "SLASH",
            TokenType::String => "STRING",
            TokenType::Number => "NUMBER",
            TokenType::Identifier => "IDENTIFIER",
            TokenType::And => "AND",
            TokenType::Class => "CLASS",
            TokenType::Else => "ELSE",
            TokenType::False => "FALSE",
            TokenType::For => "FOR",
            TokenType::Fun => "FUN",
            TokenType::If => "IF",
            TokenType::Nil => "NIL",
            TokenType::Or => "OR",
            TokenType::Print => "PRINT",
            TokenType::Return => "RETURN",
            TokenType::Super => "SUPER",
            TokenType::This => "THIS",
            TokenType::True => "TRUE",
            TokenType::Var => "VAR",
            TokenType::While => "WHILE",
        }
    }
}

impl Literal {
    /// The display text of the literal: `null` when absent, otherwise the
    /// carried text itself.
    pub open spec fn spec_render(self) -> Seq<char> {
        match self {
            Literal::Absent => "null"@,
            Literal::Str(s) => s@,
            Literal::Num(s) => s@,
        }
    }

    /// Returns the display text of the literal.
    pub fn render(&self) -> (s: String)
        ensures
            s@ == self.spec_render(),
    {
        match self {
            Literal::Absent => "null".to_owned(),
            Literal::Str(s) => s.clone(),
            Literal::Num(s) => s.clone(),
        }
    }
}

impl Token {
    /// The display text of a token: its category name, its lexeme and its
    /// literal text, separated by single spaces.
    pub open spec fn spec_render(self) -> Seq<char> {
        self.token_type.spec_name() + " "@ + self.lexeme@ + " "@ + self.literal.spec_render()
    }

    /// Returns the display text of the token.
    pub fn render(&self) -> (s: String)
        ensures
            s@ == self.spec_render(),
    {
        let mut s = self.token_type.name().to_owned();
        s.append(" ");
        s.append(self.lexeme.as_str());
        s.append(" ");
        let lit = self.literal.render();
        s.append(lit.as_str());
        s
    }
}

} // verus!
