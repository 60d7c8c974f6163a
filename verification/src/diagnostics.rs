//! Lexical error diagnostics.
//!
//! Scanning never aborts: every error is recorded as a [`Diagnostic`] and
//! the pass continues with the next character. A diagnostic renders to
//! the fixed format `[line <N>] Error: <message>`, where the message is
//! either `Unexpected character: <c>` or `Unterminated string.`; callers
//! may match on that text.

use vstd::prelude::*;

verus! {

/// The two kinds of lexical error.
#[derive(Debug, Clone, Copy, PartialEq, Eq, Structural)]
pub enum DiagnosticKind {
    /// A character that matches no recognized token class.
    UnexpectedChar(char),
    /// A string literal whose opening quote is never closed.
    UnterminatedString,
}

/// One recorded lexical error: its kind and the 1-based line it was
/// reported on.
#[derive(Debug, Clone, Copy, PartialEq, Eq, Structural)]
pub struct Diagnostic {
    pub line: usize,
    pub kind: DiagnosticKind,
}

/// Mathematical image of a [`Diagnostic`].
pub struct SpecDiagnostic {
    pub line: int,
    pub kind: DiagnosticKind,
}

impl View for Diagnostic {
    type V = SpecDiagnostic;

    open spec fn view(&self) -> SpecDiagnostic {
        SpecDiagnostic { line: self.line as int, kind: self.kind }
    }
}

/// The decimal digit character for a value below ten.
pub open spec fn digit_char(d: int) -> char {
    if d == 0 {
        '0'
    } else if d == 1 {
        '1'
    } else if d == 2 {
        '2'
    } else if d == 3 {
        '3'
    } else if d == 4 {
        '4'
    } else if d == 5 {
        '5'
    } else if d == 6 {
        '6'
    } else if d == 7 {
        '7'
    } else if d == 8 {
        '8'
    } else {
        '9'
    }
}

/// The usual decimal spelling of `n`: most significant digit first, no
/// leading zero except for zero itself.
pub open spec fn dec_digits(n: nat) -> Seq<char>
    decreases n,
{
    if n < 10 {
        seq![digit_char(n as int)]
    } else {
        dec_digits(n / 10) + seq![digit_char((n % 10) as int)]
    }
}

fn digit_str(d: usize) -> (s: &'static str)
    requires
        d < 10,
    ensures
        s@ == seq![digit_char(d as int)],
{
    proof {
        reveal_strlit("0");
        reveal_strlit("1");
        reveal_strlit("2");
        reveal_strlit("3");
        reveal_strlit("4");
        reveal_strlit("5");
        reveal_strlit("6");
        reveal_strlit("7");
        reveal_strlit("8");
        reveal_strlit("9");
    }
    let s: &'static str = if d == 0 {
        "0"
    } else if d == 1 {
        "1"
    } else if d == 2 {
        "2"
    } else if d == 3 {
        "3"
    } else if d == 4 {
        "4"
    } else if d == 5 {
        "5"
    } else if d == 6 {
        "6"
    } else if d == 7 {
        "7"
    } else if d == 8 {
        "8"
    } else {
        "9"
    };
    proof {
        assert(s@ =~= seq![digit_char(d as int)]);
    }
    s
}

/// Returns the decimal spelling of `n`.
pub fn to_decimal(n: usize) -> (s: String)
    ensures
        s@ == dec_digits(n as nat),
    decreases n,
{
    if n < 10 {
        digit_str(n).to_owned()
    } else {
        let hi = to_decimal(n / 10);
        hi.concat(digit_str(n % 10))
    }
}

/// Relies on std's String::push: appends exactly the one character to the
/// end of the string.
#[verifier::external_body]
fn push_char(s: &mut String, c: char)
    ensures
        final(s)@ == old(s)@.push(c),
{
    s.push(c);
}

impl DiagnosticKind {
    /// The message text of this kind of error.
    pub open spec fn spec_message(self) -> Seq<char> {
        match self {
            DiagnosticKind::UnexpectedChar(c) => "Unexpected character: "@ + seq![c],
            DiagnosticKind::UnterminatedString => "Unterminated string."@,
        }
    }
}

impl Diagnostic {
    /// The full diagnostic line: `[line <N>] Error: <message>`.
    pub open spec fn spec_render(self) -> Seq<char> {
        "[line "@ + dec_digits(self.line as nat) + "] Error: "@ + self.kind.spec_message()
    }

    /// Renders the diagnostic in the fixed reporting format.
    pub fn render(&self) -> (s: String)
        ensures
            s@ == self.spec_render(),
    {
        let mut s = "[line ".to_owned();
        let num = to_decimal(self.line);
        s.append(num.as_str());
        s.append("] Error: ");
        match self.kind {
            DiagnosticKind::UnexpectedChar(c) => {
                s.append("Unexpected character: ");
                push_char(&mut s, c);
            },
            DiagnosticKind::UnterminatedString => {
                s.append("Unterminated string.");
            },
        }
        proof {
            assert(s@ =~= self.spec_render());
        }
        s
    }
}

} // verus!
