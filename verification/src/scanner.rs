//! The executable scanner, verified against the model in [`crate::model`].
//!
//! A `Scanner` is built over a borrowed source buffer, driven to
//! completion by one call to [`Scanner::scan_tokens`], and then
//! discarded. Offsets count Unicode scalar values, and the line counter
//! is 1-based and only ever grows.

use vstd::prelude::*;

use crate::diagnostics::Diagnostic;
use crate::diagnostics::DiagnosticKind;
use crate::diagnostics::SpecDiagnostic;
use crate::model::comment_run_end;
use crate::model::digit_run_end;
use crate::model::ident_run_end;
use crate::model::ident_token_type;
use crate::model::is_digit;
use crate::model::is_ident_cont;
use crate::model::is_ident_start;
use crate::model::keyword_kind;
use crate::model::lemma_comment_run_end;
use crate::model::lemma_digit_run_end;
use crate::model::lemma_ident_run_end;
use crate::model::lemma_newline_count_bounds;
use crate::model::lemma_string_run_end;
use crate::model::lemma_step;
use crate::model::newline_count;
use crate::model::opt_diag_seq;
use crate::model::opt_token_seq;
use crate::model::scan_ok;
use crate::model::scan_rest;
use crate::model::scan_spec;
use crate::model::step;
use crate::model::string_run_end;
use crate::token::Literal;
use crate::token::SpecLiteral;
use crate::token::SpecToken;
use crate::token::Token;
use crate::token::TokenType;

verus! {

/// The views of a sequence of produced tokens.
pub open spec fn token_views(ts: Seq<Token>) -> Seq<SpecToken> {
    ts.map_values(|t: Token| t@)
}

/// The views of a sequence of recorded diagnostics.
pub open spec fn diag_views(ds: Seq<Diagnostic>) -> Seq<SpecDiagnostic> {
    ds.map_values(|d: Diagnostic| d@)
}

/// A single-pass cursor over a borrowed source buffer, together with the
/// tokens and diagnostics produced so far.
pub struct Scanner<'a> {
    pub source: &'a str,
    pub tokens: Vec<Token>,
    pub start: usize,
    pub current: usize,
    pub line: usize,
    pub has_error: bool,
    pub diagnostics: Vec<Diagnostic>,
}

impl<'a> Scanner<'a> {
    /// The source as a sequence of characters.
    pub open spec fn src(self) -> Seq<char> {
        self.source@
    }

    /// Cursor sanity: the lexeme start never passes the cursor, the
    /// cursor never passes the end of the buffer, the 1-based line
    /// counter never exceeds what the consumed prefix allows, and the
    /// failure flag is set exactly when a diagnostic was recorded.
    pub open spec fn wf(self) -> bool {
        &&& self.start <= self.current <= self.src().len()
        &&& 1 <= self.line
        &&& self.line <= self.current + 1
        &&& self.has_error == (self.diagnostics@.len() > 0)
    }

    /// The machine limit under which line counting cannot overflow: the
    /// buffer holds fewer characters than `usize::MAX`.
    pub open spec fn src_fits(self) -> bool {
        self.src().len() < usize::MAX
    }

    /// A freshly constructed scanner: nothing consumed, nothing
    /// produced, line counter at one.
    pub open spec fn is_initial(self) -> bool {
        &&& self.start == 0
        &&& self.current == 0
        &&& self.line == 1
        &&& self.tokens@ == Seq::<Token>::empty()
        &&& self.diagnostics@ == Seq::<Diagnostic>::empty()
        &&& !self.has_error
    }

    fn new(contents: &'a str) -> (s: Scanner<'a>)
        ensures
            s.source == contents,
            s.is_initial(),
    {
        Scanner {
            source: contents,
            tokens: Vec::new(),
            start: 0,
            current: 0,
            line: 1,
            has_error: false,
            diagnostics: Vec::new(),
        }
    }

    /// True when the cursor has consumed the whole buffer.
    fn is_at_end(&self) -> (b: bool)
        ensures
            b == (self.current >= self.src().len()),
            self.src().len() <= usize::MAX,
    {
        self.current >= self.source.unicode_len()
    }

    /// The next unread character, if any, without consuming it.
    fn peek(&self) -> (c: Option<char>)
        ensures
            c == (if self.current < self.src().len() {
                Some(self.src()[self.current as int])
            } else {
                None::<char>
            }),
            self.src().len() <= usize::MAX,
    {
        if self.is_at_end() {
            None
        } else {
            Some(self.source.get_char(self.current))
        }
    }

    /// The character one past the next unread one, if any: the extra
    /// lookahead needed to tell a fractional part from a trailing dot.
    fn peek_next(&self) -> (c: Option<char>)
        requires
            self.current < self.src().len(),
        ensures
            c == (if self.current + 1 < self.src().len() {
                Some(self.src()[self.current + 1])
            } else {
                None::<char>
            }),
    {
        let n = self.source.unicode_len();
        if self.current + 1 < n {
            Some(self.source.get_char(self.current + 1))
        } else {
            None
        }
    }

    /// Consumes one character, if any is left.
    fn advance(&mut self) -> (c: Option<char>)
        ensures
            old(self).current < old(self).src().len() ==> c == Some(
                old(self).src()[old(self).current as int],
            ) && *final(self) == (Scanner {
                current: (old(self).current + 1) as usize,
                ..*old(self)
            }),
            old(self).current >= old(self).src().len() ==> c == None::<char> && *final(self)
                == *old(self),
    {
        let c = self.peek();
        if c.is_some() {
            self.current = self.current + 1;
        }
        c
    }

    /// Consumes the next character exactly when it equals `to_match`.
    fn advance_if_match(&mut self, to_match: char) -> (r: Option<char>)
        ensures
            (old(self).current < old(self).src().len() && old(self).src()[old(self).current as int]
                == to_match) ==> r == Some(to_match) && *final(self) == (Scanner {
                current: (old(self).current + 1) as usize,
                ..*old(self)
            }),
            !(old(self).current < old(self).src().len() && old(
                self,
            ).src()[old(self).current as int] == to_match) ==> r == None::<char> && *final(self)
                == *old(self),
    {
        match self.peek() {
            Some(c) => {
                if c == to_match {
                    self.current = self.current + 1;
                    Some(c)
                } else {
                    None
                }
            },
            None => None,
        }
    }

    /// The substring consumed for the lexical unit being built.
    fn lexeme(&self) -> (s: &'a str)
        requires
            self.start <= self.current <= self.src().len(),
        ensures
            s@ == self.src().subrange(self.start as int, self.current as int),
    {
        self.source.substring_char(self.start, self.current)
    }

    /// Appends a token for the current lexeme on the current line.
    fn add_token(&mut self, token_type: TokenType, literal: Literal)
        requires
            old(self).start <= old(self).current <= old(self).src().len(),
            old(self).line >= 1,
        ensures
            token_views(final(self).tokens@) == token_views(old(self).tokens@).push(
                SpecToken {
                    token_type: token_type,
                    lexeme: old(self).src().subrange(
                        old(self).start as int,
                        old(self).current as int,
                    ),
                    literal: literal@,
                    line: old(self).line as int,
                },
            ),
            final(self).source == old(self).source,
            final(self).start == old(self).start,
            final(self).current == old(self).current,
            final(self).line == old(self).line,
            final(self).has_error == old(self).has_error,
            final(self).diagnostics == old(self).diagnostics,
    {
        let lex = self.lexeme().to_owned();
        let t = Token::new(token_type, lex, literal, self.line);
        self.tokens.push(t);
        proof {
            assert(token_views(self.tokens@) =~= token_views(old(self).tokens@).push(t@));
        }
    }

    /// Appends a token that carries no decoded literal.
    fn add_token_without_literal(&mut self, token_type: TokenType)
        requires
            old(self).start <= old(self).current <= old(self).src().len(),
            old(self).line >= 1,
        ensures
            token_views(final(self).tokens@) == token_views(old(self).tokens@).push(
                SpecToken {
                    token_type: token_type,
                    lexeme: old(self).src().subrange(
                        old(self).start as int,
                        old(self).current as int,
                    ),
                    literal: SpecLiteral::Absent,
                    line: old(self).line as int,
                },
            ),
            final(self).source == old(self).source,
            final(self).start == old(self).start,
            final(self).current == old(self).current,
            final(self).line == old(self).line,
            final(self).has_error == old(self).has_error,
            final(self).diagnostics == old(self).diagnostics,
    {
        self.add_token(token_type, Literal::Absent);
    }

    /// Moves the line counter past one consumed newline.
    fn increase_line(&mut self)
        requires
            old(self).line < usize::MAX,
        ensures
            *final(self) == (Scanner { line: (old(self).line + 1) as usize, ..*old(self) }),
    {
        self.line = self.line + 1;
    }

    /// Records a lexical error on the current line and marks the scan as
    /// failed; scanning goes on afterwards.
    fn add_diagnostic(&mut self, kind: DiagnosticKind)
        ensures
            diag_views(final(self).diagnostics@) == diag_views(old(self).diagnostics@).push(
                SpecDiagnostic { line: old(self).line as int, kind: kind },
            ),
            final(self).diagnostics@.len() == old(self).diagnostics@.len() + 1,
            final(self).has_error,
            final(self).source == old(self).source,
            final(self).start == old(self).start,
            final(self).current == old(self).current,
            final(self).line == old(self).line,
            final(self).tokens == old(self).tokens,
    {
        let d = Diagnostic { line: self.line, kind };
        self.diagnostics.push(d);
        self.has_error = true;
        proof {
            assert(diag_views(self.diagnostics@) =~= diag_views(old(self).diagnostics@).push(d@));
        }
    }
}

impl<'a> Scanner<'a> {
    /// Scans the rest of a string literal whose opening quote was just
    /// consumed: the body up to the closing quote (newlines inside are
    /// legal and counted), then the closing quote, emitting a token whose
    /// literal strips the surrounding quotes; when the buffer runs out
    /// first, records an unterminated-string error instead and emits
    /// nothing.
    fn add_string(&mut self)
        requires
            old(self).wf(),
            old(self).src_fits(),
            old(self).current == old(self).start + 1,
            old(self).start < old(self).src().len(),
            old(self).src()[old(self).start as int] == '"',
        ensures
            final(self).wf(),
            final(self).source == old(self).source,
            final(self).start == old(self).start,
            ({
                let src = old(self).src();
                let pos = old(self).start as int;
                let close = string_run_end(src, pos + 1);
                let nl = newline_count(src, pos + 1, close);
                &&& final(self).line == old(self).line + nl
                &&& (close >= src.len() ==> {
                    &&& final(self).current == src.len()
                    &&& final(self).tokens@ == old(self).tokens@
                    &&& diag_views(final(self).diagnostics@) == diag_views(
                        old(self).diagnostics@,
                    ).push(
                        SpecDiagnostic {
                            line: old(self).line + nl,
                            kind: DiagnosticKind::UnterminatedString,
                        },
                    )
                    &&& final(self).has_error
                })
                &&& (close < src.len() ==> {
                    &&& final(self).current == close + 1
                    &&& token_views(final(self).tokens@) == token_views(old(self).tokens@).push(
                        SpecToken {
                            token_type: TokenType::String,
                            lexeme: src.subrange(pos, close + 1),
                            literal: SpecLiteral::Str(src.subrange(pos + 1, close)),
                            line: old(self).line + nl,
                        },
                    )
                    &&& final(self).diagnostics@ == old(self).diagnostics@
                    &&& final(self).has_error == old(self).has_error
                })
            }),
    {
        let ghost src = self.src();
        let ghost pos = self.start as int;
        let ghost line0 = self.line as int;
        let ghost toks0 = self.tokens@;
        let ghost diags0 = self.diagnostics@;
        let ghost err0 = self.has_error;
        let ghost source0 = self.source;
        let ghost start0 = self.start;
        let ghost close = string_run_end(src, pos + 1);
        proof {
            lemma_string_run_end(src, pos + 1);
            lemma_newline_count_bounds(src, pos + 1, close);
        }
        loop
            invariant
                self.source == source0,
                self.start == start0,
                self.tokens@ == toks0,
                self.diagnostics@ == diags0,
                self.has_error == err0,
                pos == start0 as int,
                src == self.src(),
                src.len() < usize::MAX,
                0 <= pos < src.len(),
                close == string_run_end(src, pos + 1),
                pos + 1 <= self.current <= close,
                close <= src.len(),
                self.line == line0 + newline_count(src, pos + 1, self.current as int),
                1 <= self.line <= self.current + 1,
            ensures
                self.source == source0,
                self.start == start0,
                self.tokens@ == toks0,
                self.diagnostics@ == diags0,
                self.has_error == err0,
                src == self.src(),
                src.len() < usize::MAX,
                self.current == close,
                self.line == line0 + newline_count(src, pos + 1, close),
                1 <= self.line <= self.current + 1,
            decreases src.len() - self.current,
        {
            proof {
                lemma_string_run_end(src, pos + 1);
            }
            let c = self.peek();
            match c {
                Some(ch) => {
                    if ch == '"' {
                        break;
                    }
                    if ch == '\n' {
                        self.increase_line();
                    }
                    self.advance();
                },
                None => {
                    break;
                },
            }
        }
        proof {
            lemma_string_run_end(src, pos + 1);
            lemma_newline_count_bounds(src, pos + 1, close);
        }
        if self.is_at_end() {
            self.add_diagnostic(DiagnosticKind::UnterminatedString);
            return;
        }
        self.advance();
        let content = self.source.substring_char(self.start + 1, self.current - 1).to_owned();
        self.add_token(TokenType::String, Literal::Str(content));
    }

    /// Scans the rest of a number literal whose first digit was just
    /// consumed: the maximal digit run, then a fractional part only when
    /// a dot is directly followed by another digit. A trailing dot is
    /// left unconsumed for the next token.
    fn add_number(&mut self)
        requires
            old(self).wf(),
            old(self).src_fits(),
            old(self).current == old(self).start + 1,
            old(self).start < old(self).src().len(),
            is_digit(old(self).src()[old(self).start as int]),
        ensures
            final(self).wf(),
            final(self).source == old(self).source,
            final(self).start == old(self).start,
            final(self).line == old(self).line,
            final(self).diagnostics@ == old(self).diagnostics@,
            final(self).has_error == old(self).has_error,
            ({
                let src = old(self).src();
                let pos = old(self).start as int;
                let ie = digit_run_end(src, pos);
                let fe = digit_run_end(src, ie + 1);
                let e = if ie < src.len() && src[ie] == '.' && ie + 1 < src.len() && is_digit(
                    src[ie + 1],
                ) {
                    fe
                } else {
                    ie
                };
                &&& final(self).current == e
                &&& token_views(final(self).tokens@) == token_views(old(self).tokens@).push(
                    SpecToken {
                        token_type: TokenType::Number,
                        lexeme: src.subrange(pos, e),
                        literal: SpecLiteral::Num(src.subrange(pos, e)),
                        line: old(self).line as int,
                    },
                )
            }),
    {
        let ghost src = self.src();
        let ghost pos = self.start as int;
        let ghost line0 = self.line;
        let ghost toks0 = self.tokens@;
        let ghost diags0 = self.diagnostics@;
        let ghost err0 = self.has_error;
        let ghost source0 = self.source;
        let ghost start0 = self.start;
        let ghost ie = digit_run_end(src, pos);
        proof {
            lemma_digit_run_end(src, pos);
        }
        loop
            invariant
                self.source == source0,
                self.start == start0,
                self.tokens@ == toks0,
                self.diagnostics@ == diags0,
                self.has_error == err0,
                self.line == line0,
                pos == start0 as int,
                src == self.src(),
                src.len() < usize::MAX,
                0 <= pos < src.len(),
                ie == digit_run_end(src, pos),
                pos + 1 <= self.current <= ie,
                ie <= src.len(),
                1 <= self.line <= self.current + 1,
            ensures
                self.source == source0,
                self.start == start0,
                self.tokens@ == toks0,
                self.diagnostics@ == diags0,
                self.has_error == err0,
                self.line == line0,
                src == self.src(),
                src.len() < usize::MAX,
                self.current == ie,
                1 <= self.line <= self.current + 1,
            decreases src.len() - self.current,
        {
            proof {
                lemma_digit_run_end(src, pos);
            }
            let c = self.peek();
            match c {
                Some(ch) => {
                    if !is_digit_char(ch) {
                        break;
                    }
                    self.advance();
                },
                None => {
                    break;
                },
            }
        }
        let take_frac = match self.peek() {
            Some(d) => {
                if d == '.' {
                    match self.peek_next() {
                        Some(d2) => is_digit_char(d2),
                        None => false,
                    }
                } else {
                    false
                }
            },
            None => false,
        };
        if take_frac {
            self.advance();
            let ghost fe = digit_run_end(src, ie + 1);
            proof {
                lemma_digit_run_end(src, ie + 1);
            }
            loop
                invariant
                    self.source == source0,
                    self.start == start0,
                    self.tokens@ == toks0,
                    self.diagnostics@ == diags0,
                    self.has_error == err0,
                    self.line == line0,
                    pos == start0 as int,
                    src == self.src(),
                    src.len() < usize::MAX,
                    0 <= pos < src.len(),
                    pos <= ie,
                    ie == digit_run_end(src, pos),
                    fe == digit_run_end(src, ie + 1),
                    ie + 1 <= self.current <= fe,
                    fe <= src.len(),
                    1 <= self.line <= self.current + 1,
                ensures
                    self.source == source0,
                    self.start == start0,
                    self.tokens@ == toks0,
                    self.diagnostics@ == diags0,
                    self.has_error == err0,
                    self.line == line0,
                    src == self.src(),
                    src.len() < usize::MAX,
                    self.current == fe,
                    1 <= self.line <= self.current + 1,
                decreases src.len() - self.current,
            {
                proof {
                    lemma_digit_run_end(src, ie + 1);
                }
                let c = self.peek();
                match c {
                    Some(ch) => {
                        if !is_digit_char(ch) {
                            break;
                        }
                        self.advance();
                    },
                    None => {
                        break;
                    },
                }
            }
        }
        let lex = self.lexeme().to_owned();
        self.add_token(TokenType::Number, Literal::Num(lex));
    }

    /// Scans the rest of an identifier whose first character was just
    /// consumed: the maximal run of ASCII letters, digits and `_`, then
    /// resolves the lexeme against the reserved-word table.
    fn add_identifier(&mut self)
        requires
            old(self).wf(),
            old(self).src_fits(),
            old(self).current == old(self).start + 1,
            old(self).start < old(self).src().len(),
            is_ident_start(old(self).src()[old(self).start as int]),
        ensures
            final(self).wf(),
            final(self).source == old(self).source,
            final(self).start == old(self).start,
            final(self).line == old(self).line,
            final(self).diagnostics@ == old(self).diagnostics@,
            final(self).has_error == old(self).has_error,
            ({
                let src = old(self).src();
                let pos = old(self).start as int;
                let e = ident_run_end(src, pos);
                &&& final(self).current == e
                &&& token_views(final(self).tokens@) == token_views(old(self).tokens@).push(
                    SpecToken {
                        token_type: ident_token_type(src.subrange(pos, e)),
                        lexeme: src.subrange(pos, e),
                        literal: SpecLiteral::Absent,
                        line: old(self).line as int,
                    },
                )
            }),
    {
        let ghost src = self.src();
        let ghost pos = self.start as int;
        let ghost line0 = self.line;
        let ghost toks0 = self.tokens@;
        let ghost diags0 = self.diagnostics@;
        let ghost err0 = self.has_error;
        let ghost source0 = self.source;
        let ghost start0 = self.start;
        let ghost e = ident_run_end(src, pos);
        proof {
            lemma_ident_run_end(src, pos);
        }
        loop
            invariant
                self.source == source0,
                self.start == start0,
                self.tokens@ == toks0,
                self.diagnostics@ == diags0,
                self.has_error == err0,
                self.line == line0,
                pos == start0 as int,
                src == self.src(),
                src.len() < usize::MAX,
                0 <= pos < src.len(),
                e == ident_run_end(src, pos),
                pos + 1 <= self.current <= e,
                e <= src.len(),
                1 <= self.line <= self.current + 1,
            ensures
                self.source == source0,
                self.start == start0,
                self.tokens@ == toks0,
                self.diagnostics@ == diags0,
                self.has_error == err0,
                self.line == line0,
                src == self.src(),
                src.len() < usize::MAX,
                self.current == e,
                1 <= self.line <= self.current + 1,
            decreases src.len() - self.current,
        {
            proof {
                lemma_ident_run_end(src, pos);
            }
            let c = self.peek();
            match c {
                Some(ch) => {
                    if !is_ident_cont_char(ch) {
                        break;
                    }
                    self.advance();
                },
                None => {
                    break;
                },
            }
        }
        let lex = self.lexeme().to_owned();
        let kind = match keyword_token_type(&lex) {
            Some(tt) => tt,
            None => TokenType::Identifier,
        };
        self.add_token_without_literal(kind);
    }

    /// Consumes and classifies one lexical unit: emits at most one token,
    /// records at most one diagnostic, and moves the cursor and line
    /// counter exactly as one [`step`] of the model says. Does nothing
    /// when the buffer is already exhausted.
    pub fn scan_token(&mut self)
        requires
            old(self).wf(),
            old(self).src_fits(),
            old(self).start == old(self).current,
        ensures
            final(self).wf(),
            final(self).src_fits(),
            final(self).source == old(self).source,
            final(self).start == old(self).start,
            old(self).current >= old(self).src().len() ==> *final(self) == *old(self),
            old(self).current < old(self).src().len() ==> ({
                let st = step(old(self).src(), old(self).current as int, old(self).line as int);
                &&& final(self).current == st.next
                &&& final(self).line == st.line
                &&& token_views(final(self).tokens@) == token_views(old(self).tokens@)
                    + opt_token_seq(st.token)
                &&& diag_views(final(self).diagnostics@) == diag_views(old(self).diagnostics@)
                    + opt_diag_seq(st.diag)
                &&& final(self).has_error == (old(self).has_error || st.diag is Some)
            }),
    {
        let ghost src = self.src();
        let ghost pos = self.start as int;
        let ghost line0 = self.line;
        let ghost toks0 = self.tokens@;
        let ghost diags0 = self.diagnostics@;
        let ghost err0 = self.has_error;
        let ghost source0 = self.source;
        let ghost start0 = self.start;
        let c_opt = self.advance();
        if c_opt.is_none() {
            return;
        }
        let c = c_opt.unwrap();
        let ghost st = step(src, pos, line0 as int);
        proof {
            lemma_step(src, pos, line0 as int);
        }
        match c {
            '(' => self.add_token_without_literal(TokenType::LeftParen),
            ')' => self.add_token_without_literal(TokenType::RightParen),
            '{' => self.add_token_without_literal(TokenType::LeftBrace),
            '}' => self.add_token_without_literal(TokenType::RightBrace),
            '.' => self.add_token_without_literal(TokenType::Dot),
            '*' => self.add_token_without_literal(TokenType::Star),
            '+' => self.add_token_without_literal(TokenType::Plus),
            '-' => self.add_token_without_literal(TokenType::Minus),
            ';' => self.add_token_without_literal(TokenType::Semicolon),
            ',' => self.add_token_without_literal(TokenType::Comma),
            '!' => {
                match self.advance_if_match('=') {
                    Some(_) => self.add_token_without_literal(TokenType::BangEqual),
                    _ => self.add_token_without_literal(TokenType::Bang),
                }
            },
            '=' => {
                match self.advance_if_match('=') {
                    Some(_) => self.add_token_without_literal(TokenType::EqualEqual),
                    _ => self.add_token_without_literal(TokenType::Equal),
                }
            },
            '>' => {
                match self.advance_if_match('=') {
                    Some(_) => self.add_token_without_literal(TokenType::GreaterEqual),
                    _ => self.add_token_without_literal(TokenType::Greater),
                }
            },
            '<' => {
                match self.advance_if_match('=') {
                    Some(_) => self.add_token_without_literal(TokenType::LessEqual),
                    _ => self.add_token_without_literal(TokenType::Less),
                }
            },
            '/' => {
                match self.advance_if_match('/') {
                    Some(_) => {
                        // a comment runs to the newline, which it leaves
                        // unconsumed, or to the end of the buffer
                        let ghost ce = comment_run_end(src, pos + 2);
                        proof {
                            lemma_comment_run_end(src, pos + 2);
                        }
                        loop
                            invariant
                                self.source == source0,
                                self.start == start0,
                                self.tokens@ == toks0,
                                self.diagnostics@ == diags0,
                                self.has_error == err0,
                                self.line == line0,
                                pos == start0 as int,
                                src == self.src(),
                                src.len() < usize::MAX,
                                0 <= pos,
                                pos + 2 <= src.len(),
                                ce == comment_run_end(src, pos + 2),
                                pos + 2 <= self.current <= ce,
                                ce <= src.len(),
                                1 <= self.line <= self.current + 1,
                            ensures
                                self.source == source0,
                                self.start == start0,
                                self.tokens@ == toks0,
                                self.diagnostics@ == diags0,
                                self.has_error == err0,
                                self.line == line0,
                                src == self.src(),
                                self.current == ce,
                                1 <= self.line <= self.current + 1,
                            decreases src.len() - self.current,
                        {
                            proof {
                                lemma_comment_run_end(src, pos + 2);
                            }
                            let c2 = self.peek();
                            match c2 {
                                Some(ch) => {
                                    if ch == '\n' {
                                        break;
                                    }
                                    self.advance();
                                },
                                None => {
                                    break;
                                },
                            }
                        }
                    },
                    _ => self.add_token_without_literal(TokenType::Slash),
                }
            },
            ' ' | '\r' | '\t' => {},
            '\n' => self.increase_line(),
            '"' => self.add_string(),
            _ => {
                if is_digit_char(c) {
                    self.add_number();
                } else if is_ident_start_char(c) {
                    self.add_identifier();
                } else {
                    self.add_diagnostic(DiagnosticKind::UnexpectedChar(c));
                }
            },
        }
        proof {
            assert(token_views(self.tokens@) =~= token_views(toks0) + opt_token_seq(st.token));
            assert(diag_views(self.diagnostics@) =~= diag_views(diags0) + opt_diag_seq(st.diag));
        }
    }

    /// Scans the whole buffer: repeatedly consumes one lexical unit until
    /// the cursor reaches the end, then appends exactly one end-of-stream
    /// token. Returns the complete token sequence either way; it comes as
    /// an error exactly when some lexical error was recorded during the
    /// pass.
    pub fn scan_tokens(&mut self) -> (r: Result<&[Token], &[Token]>)
        requires
            old(self).is_initial(),
            old(self).src_fits(),
        ensures
            final(self).wf(),
            final(self).source == old(self).source,
            token_views(final(self).tokens@) == scan_spec(old(self).src()).tokens,
            diag_views(final(self).diagnostics@) == scan_spec(old(self).src()).diags,
            final(self).has_error == !scan_ok(old(self).src()),
            r matches Ok(ts) ==> ts@ == final(self).tokens@,
            r matches Err(ts) ==> ts@ == final(self).tokens@,
            (r is Ok) == scan_ok(old(self).src()),
    {
        let ghost src = self.src();
        let ghost source0 = self.source;
        proof {
            assert(token_views(self.tokens@) =~= Seq::<SpecToken>::empty());
            assert(diag_views(self.diagnostics@) =~= Seq::<SpecDiagnostic>::empty());
            assert(Seq::<SpecToken>::empty() + scan_rest(src, 0, 1).tokens =~= scan_rest(
                src,
                0,
                1,
            ).tokens);
            assert(Seq::<SpecDiagnostic>::empty() + scan_rest(src, 0, 1).diags =~= scan_rest(
                src,
                0,
                1,
            ).diags);
        }
        loop
            invariant
                self.wf(),
                self.src_fits(),
                self.source == source0,
                src == self.src(),
                self.start == self.current,
                scan_rest(src, 0, 1).tokens == token_views(self.tokens@) + scan_rest(
                    src,
                    self.current as int,
                    self.line as int,
                ).tokens,
                scan_rest(src, 0, 1).diags == diag_views(self.diagnostics@) + scan_rest(
                    src,
                    self.current as int,
                    self.line as int,
                ).diags,
            ensures
                self.wf(),
                self.source == source0,
                src == self.src(),
                self.start == self.current,
                self.current == src.len(),
                scan_rest(src, 0, 1).tokens == token_views(self.tokens@) + scan_rest(
                    src,
                    self.current as int,
                    self.line as int,
                ).tokens,
                scan_rest(src, 0, 1).diags == diag_views(self.diagnostics@) + scan_rest(
                    src,
                    self.current as int,
                    self.line as int,
                ).diags,
            decreases src.len() - self.current,
        {
            if self.is_at_end() {
                break;
            }
            let ghost pre = *self;
            self.scan_token();
            proof {
                lemma_step(src, pre.current as int, pre.line as int);
                let st = step(src, pre.current as int, pre.line as int);
                assert((token_views(pre.tokens@) + opt_token_seq(st.token)) + scan_rest(
                    src,
                    st.next,
                    st.line,
                ).tokens =~= token_views(pre.tokens@) + (opt_token_seq(st.token) + scan_rest(
                    src,
                    st.next,
                    st.line,
                ).tokens));
                assert((diag_views(pre.diagnostics@) + opt_diag_seq(st.diag)) + scan_rest(
                    src,
                    st.next,
                    st.line,
                ).diags =~= diag_views(pre.diagnostics@) + (opt_diag_seq(st.diag) + scan_rest(
                    src,
                    st.next,
                    st.line,
                ).diags));
            }
            self.start = self.current;
        }
        self.add_token_without_literal(TokenType::Eof);
        proof {
            assert(src.subrange(src.len() as int, src.len() as int) =~= Seq::<char>::empty());
            assert(token_views(self.tokens@) =~= scan_rest(src, 0, 1).tokens);
            assert(diag_views(self.diagnostics@) =~= scan_rest(src, 0, 1).diags);
            assert(diag_views(self.diagnostics@).len() == self.diagnostics@.len());
        }
        if !self.has_error {
            Ok(self.tokens.as_slice())
        } else {
            Err(self.tokens.as_slice())
        }
    }
}

impl<'a> vstd::std_specs::convert::FromSpecImpl<&'a str> for Scanner<'a> {
    open spec fn obeys_from_spec() -> bool {
        false
    }

    open spec fn from_spec(v: &'a str) -> Scanner<'a> {
        arbitrary()
    }
}

impl<'a> From<&'a str> for Scanner<'a> {
    /// Builds a fresh scanner over the given source buffer.
    fn from(value: &'a str) -> (s: Scanner<'a>)
        ensures
            s.source == value,
            s.is_initial(),
    {
        Scanner::new(value)
    }
}

/// True exactly for ASCII decimal digits.
fn is_digit_char(c: char) -> (b: bool)
    ensures
        b == is_digit(c),
{
    let u = c as u32;
    48 <= u && u <= 57
}

/// True exactly for characters that may begin an identifier.
fn is_ident_start_char(c: char) -> (b: bool)
    ensures
        b == is_ident_start(c),
{
    let u = c as u32;
    (97 <= u && u <= 122) || (65 <= u && u <= 90) || c == '_'
}

/// True exactly for characters that may continue an identifier.
fn is_ident_cont_char(c: char) -> (b: bool)
    ensures
        b == is_ident_cont(c),
{
    is_ident_start_char(c) || is_digit_char(c)
}

/// The reserved-word lookup: an exact, case-sensitive match against the
/// fixed keyword table.
fn keyword_token_type(lex: &String) -> (r: Option<TokenType>)
    ensures
        r == keyword_kind(lex@),
{
    if *lex == "and".to_owned() {
        return Some(TokenType::And);
    }
    if *lex == "class".to_owned() {
        return Some(TokenType::Class);
    }
    if *lex == "else".to_owned() {
        return Some(TokenType::Else);
    }
    if *lex == "false".to_owned() {
        return Some(TokenType::False);
    }
    if *lex == "for".to_owned() {
        return Some(TokenType::For);
    }
    if *lex == "fun".to_owned() {
        return Some(TokenType::Fun);
    }
    if *lex == "if".to_owned() {
        return Some(TokenType::If);
    }
    if *lex == "nil".to_owned() {
        return Some(TokenType::Nil);
    }
    if *lex == "or".to_owned() {
        return Some(TokenType::Or);
    }
    if *lex == "print".to_owned() {
        return Some(TokenType::Print);
    }
    if *lex == "return".to_owned() {
        return Some(TokenType::Return);
    }
    if *lex == "super".to_owned() {
        return Some(TokenType::Super);
    }
    if *lex == "this".to_owned() {
        return Some(TokenType::This);
    }
    if *lex == "true".to_owned() {
        return Some(TokenType::True);
    }
    if *lex == "var".to_owned() {
        return Some(TokenType::Var);
    }
    if *lex == "while".to_owned() {
        return Some(TokenType::While);
    }
    None
}

} // verus!
