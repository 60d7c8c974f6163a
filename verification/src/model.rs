//! The mathematical model of a scan.
//!
//! [`step`] classifies the character at one cursor position and says what
//! a single dispatch consumes, which token it emits, which diagnostic it
//! records and how the line counter moves. [`scan_rest`] folds [`step`]
//! over the rest of the source and appends the final end-of-stream token.
//! The executable scanner is verified to produce exactly
//! [`scan_spec`]`(source)`.
//!
//! Identifiers are ASCII-only: they start with an ASCII letter or `_` and
//! continue with ASCII letters, ASCII digits and `_`; any other
//! alphabetic code point is reported as an unexpected character.

use vstd::prelude::*;

use crate::diagnostics::DiagnosticKind;
use crate::diagnostics::SpecDiagnostic;
use crate::token::SpecLiteral;
use crate::token::SpecToken;
use crate::token::TokenType;
use crate::token::token_literal_wf;

verus! {

// ---------------------------------------------------------------------------
// Character classes
// ---------------------------------------------------------------------------
/// An ASCII decimal digit.
pub open spec fn is_digit(c: char) -> bool {
    48 <= c as u32 && c as u32 <= 57
}

/// An ASCII letter.
pub open spec fn is_ascii_letter(c: char) -> bool {
    (97 <= c as u32 && c as u32 <= 122) || (65 <= c as u32 && c as u32 <= 90)
}

/// A character that may begin an identifier.
pub open spec fn is_ident_start(c: char) -> bool {
    is_ascii_letter(c) || c == '_'
}

/// A character that may continue an identifier.
pub open spec fn is_ident_cont(c: char) -> bool {
    is_ident_start(c) || is_digit(c)
}

/// One of the fixed single-character punctuation tokens.
pub open spec fn is_simple_punct(c: char) -> bool {
    c == '(' || c == ')' || c == '{' || c == '}' || c == '.' || c == ',' || c == ';' || c == '+'
        || c == '-' || c == '*'
}

/// The token category of a fixed single-character punctuation token.
pub open spec fn simple_punct_type(c: char) -> TokenType {
    if c == '(' {
        TokenType::LeftParen
    } else if c == ')' {
        TokenType::RightParen
    } else if c == '{' {
        TokenType::LeftBrace
    } else if c == '}' {
        TokenType::RightBrace
    } else if c == '.' {
        TokenType::Dot
    } else if c == ',' {
        TokenType::Comma
    } else if c == ';' {
        TokenType::Semicolon
    } else if c == '+' {
        TokenType::Plus
    } else if c == '-' {
        TokenType::Minus
    } else {
        TokenType::Star
    }
}

/// A character that forms a two-character operator when followed by `=`.
pub open spec fn pairs_with_equal(c: char) -> bool {
    c == '!' || c == '=' || c == '<' || c == '>'
}

/// The one-character operator emitted when no `=` follows.
pub open spec fn single_type(c: char) -> TokenType {
    if c == '!' {
        TokenType::Bang
    } else if c == '=' {
        TokenType::Equal
    } else if c == '<' {
        TokenType::Less
    } else {
        TokenType::Greater
    }
}

/// The two-character operator emitted when `=` follows.
pub open spec fn pair_type(c: char) -> TokenType {
    if c == '!' {
        TokenType::BangEqual
    } else if c == '=' {
        TokenType::EqualEqual
    } else if c == '<' {
        TokenType::LessEqual
    } else {
        TokenType::GreaterEqual
    }
}

/// The reserved-word table: the token category of an exactly matching
/// keyword spelling, case-sensitive.
pub open spec fn keyword_kind(lex: Seq<char>) -> Option<TokenType> {
    if lex == "and"@ {
        Some(TokenType::And)
    } else if lex == "class"@ {
        Some(TokenType::Class)
    } else if lex == "else"@ {
        Some(TokenType::Else)
    } else if lex == "false"@ {
        Some(TokenType::False)
    } else if lex == "for"@ {
        Some(TokenType::For)
    } else if lex == "fun"@ {
        Some(TokenType::Fun)
    } else if lex == "if"@ {
        Some(TokenType::If)
    } else if lex == "nil"@ {
        Some(TokenType::Nil)
    } else if lex == "or"@ {
        Some(TokenType::Or)
    } else if lex == "print"@ {
        Some(TokenType::Print)
    } else if lex == "return"@ {
        Some(TokenType::Return)
    } else if lex == "super"@ {
        Some(TokenType::Super)
    } else if lex == "this"@ {
        Some(TokenType::This)
    } else if lex == "true"@ {
        Some(TokenType::True)
    } else if lex == "var"@ {
        Some(TokenType::Var)
    } else if lex == "while"@ {
        Some(TokenType::While)
    } else {
        None
    }
}

/// The category of an identifier lexeme: its keyword category if the
/// spelling is reserved, a plain identifier otherwise.
pub open spec fn ident_token_type(lex: Seq<char>) -> TokenType {
    match keyword_kind(lex) {
        Some(k) => k,
        None => TokenType::Identifier,
    }
}

// ---------------------------------------------------------------------------
// Maximal runs
// ---------------------------------------------------------------------------
/// The end of the maximal run of ASCII digits starting at `pos`.
pub open spec fn digit_run_end(src: Seq<char>, pos: int) -> int
    decreases src.len() - pos,
{
    if pos < 0 || pos >= src.len() {
        src.len() as int
    } else if is_digit(src[pos]) {
        digit_run_end(src, pos + 1)
    } else {
        pos
    }
}

/// The end of the maximal run of identifier characters starting at `pos`.
pub open spec fn ident_run_end(src: Seq<char>, pos: int) -> int
    decreases src.len() - pos,
{
    if pos < 0 || pos >= src.len() {
        src.len() as int
    } else if is_ident_cont(src[pos]) {
        ident_run_end(src, pos + 1)
    } else {
        pos
    }
}

/// The position of the first newline at or after `pos`, or the end of the
/// source: where a `//` comment stops consuming.
pub open spec fn comment_run_end(src: Seq<char>, pos: int) -> int
    decreases src.len() - pos,
{
    if pos < 0 || pos >= src.len() {
        src.len() as int
    } else if src[pos] != '\n' {
        comment_run_end(src, pos + 1)
    } else {
        pos
    }
}

/// The position of the first `"` at or after `pos`, or the end of the
/// source: where a string literal's body stops.
pub open spec fn string_run_end(src: Seq<char>, pos: int) -> int
    decreases src.len() - pos,
{
    if pos < 0 || pos >= src.len() {
        src.len() as int
    } else if src[pos] != '"' {
        string_run_end(src, pos + 1)
    } else {
        pos
    }
}

pub proof fn lemma_digit_run_end(src: Seq<char>, pos: int)
    requires
        0 <= pos <= src.len(),
    ensures
        pos <= digit_run_end(src, pos) <= src.len(),
        forall|i: int| pos <= i < digit_run_end(src, pos) ==> is_digit(#[trigger] src[i]),
        digit_run_end(src, pos) < src.len() ==> !is_digit(src[digit_run_end(src, pos)]),
    decreases src.len() - pos,
{
    if pos < src.len() && is_digit(src[pos]) {
        lemma_digit_run_end(src, pos + 1);
    }
}

pub proof fn lemma_ident_run_end(src: Seq<char>, pos: int)
    requires
        0 <= pos <= src.len(),
    ensures
        pos <= ident_run_end(src, pos) <= src.len(),
        forall|i: int| pos <= i < ident_run_end(src, pos) ==> is_ident_cont(#[trigger] src[i]),
        ident_run_end(src, pos) < src.len() ==> !is_ident_cont(src[ident_run_end(src, pos)]),
    decreases src.len() - pos,
{
    if pos < src.len() && is_ident_cont(src[pos]) {
        lemma_ident_run_end(src, pos + 1);
    }
}

pub proof fn lemma_comment_run_end(src: Seq<char>, pos: int)
    requires
        0 <= pos <= src.len(),
    ensures
        pos <= comment_run_end(src, pos) <= src.len(),
        forall|i: int| pos <= i < comment_run_end(src, pos) ==> #[trigger] src[i] != '\n',
        comment_run_end(src, pos) < src.len() ==> src[comment_run_end(src, pos)] == '\n',
    decreases src.len() - pos,
{
    if pos < src.len() && src[pos] != '\n' {
        lemma_comment_run_end(src, pos + 1);
    }
}

pub proof fn lemma_string_run_end(src: Seq<char>, pos: int)
    requires
        0 <= pos <= src.len(),
    ensures
        pos <= string_run_end(src, pos) <= src.len(),
        forall|i: int| pos <= i < string_run_end(src, pos) ==> #[trigger] src[i] != '"',
        string_run_end(src, pos) < src.len() ==> src[string_run_end(src, pos)] == '"',
    decreases src.len() - pos,
{
    if pos < src.len() && src[pos] != '"' {
        lemma_string_run_end(src, pos + 1);
    }
}

// ---------------------------------------------------------------------------
// Newline counting
// ---------------------------------------------------------------------------
/// How many newline characters `src` holds in the index range `[i, j)`.
pub open spec fn newline_count(src: Seq<char>, i: int, j: int) -> int
    decreases j - i,
{
    if i >= j {
        0
    } else {
        newline_count(src, i, j - 1) + if src[j - 1] == '\n' {
            1int
        } else {
            0int
        }
    }
}

pub proof fn lemma_newline_count_bounds(src: Seq<char>, i: int, j: int)
    requires
        i <= j,
    ensures
        0 <= newline_count(src, i, j) <= j - i,
    decreases j - i,
{
    if i < j {
        lemma_newline_count_bounds(src, i, j - 1);
    }
}

pub proof fn lemma_newline_count_split(src: Seq<char>, i: int, j: int, k: int)
    requires
        i <= j <= k,
    ensures
        newline_count(src, i, k) == newline_count(src, i, j) + newline_count(src, j, k),
    decreases k - j,
{
    if j < k {
        lemma_newline_count_split(src, i, j, k - 1);
    }
}

pub proof fn lemma_newline_count_zero(src: Seq<char>, i: int, j: int)
    requires
        i <= j,
        forall|x: int| i <= x < j ==> #[trigger] src[x] != '\n',
    ensures
        newline_count(src, i, j) == 0,
    decreases j - i,
{
    if i < j {
        lemma_newline_count_zero(src, i, j - 1);
    }
}

// ---------------------------------------------------------------------------
// One dispatch step
// ---------------------------------------------------------------------------
/// What one dispatch does, starting at `next` / `line` of the previous
/// one: where the cursor lands, where the line counter lands, and the
/// token or diagnostic the step produces, if any.
pub struct SpecStep {
    pub next: int,
    pub line: int,
    pub token: Option<SpecToken>,
    pub diag: Option<SpecDiagnostic>,
}

/// Classifies the character at `pos` and gives the effect of scanning one
/// lexical unit there. Meaningful for `0 <= pos < src.len()`.
pub open spec fn step(src: Seq<char>, pos: int, line: int) -> SpecStep {
    let c = src[pos];
    if is_simple_punct(c) {
        SpecStep {
            next: pos + 1,
            line: line,
            token: Some(
                SpecToken {
                    token_type: simple_punct_type(c),
                    lexeme: src.subrange(pos, pos + 1),
                    literal: SpecLiteral::Absent,
                    line: line,
                },
            ),
            diag: None,
        }
    } else if pairs_with_equal(c) {
        if pos + 1 < src.len() && src[pos + 1] == '=' {
            SpecStep {
                next: pos + 2,
                line: line,
                token: Some(
                    SpecToken {
                        token_type: pair_type(c),
                        lexeme: src.subrange(pos, pos + 2),
                        literal: SpecLiteral::Absent,
                        line: line,
                    },
                ),
                diag: None,
            }
        } else {
            SpecStep {
                next: pos + 1,
                line: line,
                token: Some(
                    SpecToken {
                        token_type: single_type(c),
                        lexeme: src.subrange(pos, pos + 1),
                        literal: SpecLiteral::Absent,
                        line: line,
                    },
                ),
                diag: None,
            }
        }
    } else if c == '/' {
        if pos + 1 < src.len() && src[pos + 1] == '/' {
            SpecStep { next: comment_run_end(src, pos + 2), line: line, token: None, diag: None }
        } else {
            SpecStep {
                next: pos + 1,
                line: line,
                token: Some(
                    SpecToken {
                        token_type: TokenType::Slash,
                        lexeme: src.subrange(pos, pos + 1),
                        literal: SpecLiteral::Absent,
                        line: line,
                    },
                ),
                diag: None,
            }
        }
    } else if c == ' ' || c == '\r' || c == '\t' {
        SpecStep { next: pos + 1, line: line, token: None, diag: None }
    } else if c == '\n' {
        SpecStep { next: pos + 1, line: line + 1, token: None, diag: None }
    } else if c == '"' {
        let close = string_run_end(src, pos + 1);
        let nl = newline_count(src, pos + 1, close);
        if close >= src.len() {
            SpecStep {
                next: src.len() as int,
                line: line + nl,
                token: None,
                diag: Some(
                    SpecDiagnostic { line: line + nl, kind: DiagnosticKind::UnterminatedString },
                ),
            }
        } else {
            SpecStep {
                next: close + 1,
                line: line + nl,
                token: Some(
                    SpecToken {
                        token_type: TokenType::String,
                        lexeme: src.subrange(pos, close + 1),
                        literal: SpecLiteral::Str(src.subrange(pos + 1, close)),
                        line: line + nl,
                    },
                ),
                diag: None,
            }
        }
    } else if is_digit(c) {
        let ie = digit_run_end(src, pos);
        let fe = digit_run_end(src, ie + 1);
        if ie < src.len() && src[ie] == '.' && ie + 1 < src.len() && is_digit(src[ie + 1]) {
            SpecStep {
                next: fe,
                line: line,
                token: Some(
                    SpecToken {
                        token_type: TokenType::Number,
                        lexeme: src.subrange(pos, fe),
                        literal: SpecLiteral::Num(src.subrange(pos, fe)),
                        line: line,
                    },
                ),
                diag: None,
            }
        } else {
            SpecStep {
                next: ie,
                line: line,
                token: Some(
                    SpecToken {
                        token_type: TokenType::Number,
                        lexeme: src.subrange(pos, ie),
                        literal: SpecLiteral::Num(src.subrange(pos, ie)),
                        line: line,
                    },
                ),
                diag: None,
            }
        }
    } else if is_ident_start(c) {
        let e = ident_run_end(src, pos);
        SpecStep {
            next: e,
            line: line,
            token: Some(
                SpecToken {
                    token_type: ident_token_type(src.subrange(pos, e)),
                    lexeme: src.subrange(pos, e),
                    literal: SpecLiteral::Absent,
                    line: line,
                },
            ),
            diag: None,
        }
    } else {
        SpecStep {
            next: pos + 1,
            line: line,
            token: None,
            diag: Some(SpecDiagnostic { line: line, kind: DiagnosticKind::UnexpectedChar(c) }),
        }
    }
}

/// Everything the rest of the scan relies on about one step: the cursor
/// strictly advances and stays in bounds, the line counter moves by
/// exactly the newlines the step consumed, an emitted token carries the
/// consumed lexeme and the final line, is never the end-of-stream marker,
/// and its literal matches its category; a diagnostic carries the final
/// line.
pub proof fn lemma_step(src: Seq<char>, pos: int, line: int)
    requires
        0 <= pos < src.len(),
    ensures
        ({
            let st = step(src, pos, line);
            &&& pos < st.next <= src.len()
            &&& st.line == line + newline_count(src, pos, st.next)
            &&& line <= st.line <= line + (st.next - pos)
            &&& (st.token matches Some(t) ==> t.lexeme == src.subrange(pos, st.next)
                && t.line == st.line && t.token_type != TokenType::Eof && token_literal_wf(t))
            &&& (st.diag matches Some(d) ==> d.line == st.line)
        }),
{
    let c = src[pos];
    let st = step(src, pos, line);
    if is_simple_punct(c) {
        lemma_newline_count_zero(src, pos, pos + 1);
    } else if pairs_with_equal(c) {
        if pos + 1 < src.len() && src[pos + 1] == '=' {
            lemma_newline_count_zero(src, pos, pos + 2);
        } else {
            lemma_newline_count_zero(src, pos, pos + 1);
        }
    } else if c == '/' {
        if pos + 1 < src.len() && src[pos + 1] == '/' {
            lemma_comment_run_end(src, pos + 2);
            lemma_newline_count_zero(src, pos, st.next);
        } else {
            lemma_newline_count_zero(src, pos, pos + 1);
        }
    } else if c == ' ' || c == '\r' || c == '\t' {
        lemma_newline_count_zero(src, pos, pos + 1);
    } else if c == '\n' {
        assert(newline_count(src, pos, pos) == 0);
        assert(newline_count(src, pos, pos + 1) == 1);
    } else if c == '"' {
        let close = string_run_end(src, pos + 1);
        let nl = newline_count(src, pos + 1, close);
        lemma_string_run_end(src, pos + 1);
        lemma_newline_count_bounds(src, pos + 1, close);
        lemma_newline_count_zero(src, pos, pos + 1);
        if close >= src.len() {
            lemma_newline_count_split(src, pos, pos + 1, close);
        } else {
            lemma_newline_count_split(src, pos, pos + 1, close + 1);
            assert(newline_count(src, pos + 1, close + 1) == nl);
        }
    } else if is_digit(c) {
        let ie = digit_run_end(src, pos);
        lemma_digit_run_end(src, pos);
        if ie < src.len() && src[ie] == '.' && ie + 1 < src.len() && is_digit(src[ie + 1]) {
            lemma_digit_run_end(src, ie + 1);
            lemma_newline_count_zero(src, pos, digit_run_end(src, ie + 1));
        } else {
            lemma_newline_count_zero(src, pos, ie);
        }
    } else if is_ident_start(c) {
        lemma_ident_run_end(src, pos);
        lemma_newline_count_zero(src, pos, ident_run_end(src, pos));
    } else {
        lemma_newline_count_zero(src, pos, pos + 1);
    }
}

// ---------------------------------------------------------------------------
// The whole scan
// ---------------------------------------------------------------------------
/// What a scan returns: the ordered token sequence and the ordered
/// sequence of recorded diagnostics. The scan failed exactly when the
/// diagnostic sequence is non-empty.
pub struct ScanOutput {
    pub tokens: Seq<SpecToken>,
    pub diags: Seq<SpecDiagnostic>,
}

/// The end-of-stream token, reported on the final line.
pub open spec fn eof_token(line: int) -> SpecToken {
    SpecToken {
        token_type: TokenType::Eof,
        lexeme: Seq::empty(),
        literal: SpecLiteral::Absent,
        line: line,
    }
}

pub open spec fn opt_token_seq(t: Option<SpecToken>) -> Seq<SpecToken> {
    match t {
        Some(tok) => seq![tok],
        None => Seq::empty(),
    }
}

pub open spec fn opt_diag_seq(d: Option<SpecDiagnostic>) -> Seq<SpecDiagnostic> {
    match d {
        Some(dg) => seq![dg],
        None => Seq::empty(),
    }
}

/// The tokens and diagnostics produced by scanning from `pos` onward with
/// the line counter at `line`, including the terminal end-of-stream
/// token.
pub open spec fn scan_rest(src: Seq<char>, pos: int, line: int) -> ScanOutput
    decreases src.len() - pos
        when 0 <= pos <= src.len()
        via scan_rest_decreases
{
    if pos >= src.len() {
        ScanOutput { tokens: seq![eof_token(line)], diags: Seq::empty() }
    } else {
        let st = step(src, pos, line);
        let rest = scan_rest(src, st.next, st.line);
        ScanOutput {
            tokens: opt_token_seq(st.token) + rest.tokens,
            diags: opt_diag_seq(st.diag) + rest.diags,
        }
    }
}

#[via_fn]
proof fn scan_rest_decreases(src: Seq<char>, pos: int, line: int) {
    if pos < src.len() {
        lemma_step(src, pos, line);
    }
}

/// The complete scan of a source buffer: every recognized token in order,
/// terminated by the end-of-stream token, with line counting starting at
/// one, plus every diagnostic recorded on the way.
pub open spec fn scan_spec(src: Seq<char>) -> ScanOutput {
    scan_rest(src, 0, 1)
}

/// A scan succeeded exactly when it recorded no diagnostic.
pub open spec fn scan_ok(src: Seq<char>) -> bool {
    scan_spec(src).diags.len() == 0
}

} // verus!
