//! Proved laws of the scan model.
//!
//! Each public proof function here states a property that holds of every
//! scan, over the same specification functions that the scanner's own
//! contracts use.

use vstd::prelude::*;

use crate::model::lemma_newline_count_split;
use crate::model::lemma_step;
use crate::model::newline_count;
use crate::model::opt_diag_seq;
use crate::model::opt_token_seq;
use crate::model::scan_rest;
use crate::model::scan_spec;
use crate::model::step;
use crate::token::token_literal_wf;
use crate::token::SpecToken;
use crate::token::TokenType;

verus! {

proof fn lemma_scan_rest_eof(src: Seq<char>, pos: int, line: int)
    requires
        0 <= pos <= src.len(),
    ensures
        scan_rest(src, pos, line).tokens.len() >= 1,
        scan_rest(src, pos, line).tokens.last().token_type == TokenType::Eof,
        forall|i: int|
            0 <= i < scan_rest(src, pos, line).tokens.len() - 1 ==> scan_rest(
                src,
                pos,
                line,
            ).tokens[i].token_type != TokenType::Eof,
    decreases src.len() - pos,
{
    if pos < src.len() {
        lemma_step(src, pos, line);
        let st = step(src, pos, line);
        lemma_scan_rest_eof(src, st.next, st.line);
    }
}

/// Law: every scan, of any input, returns a non-empty token sequence
/// whose last element is an end-of-stream token, and no token before the
/// last is one: exactly one end-of-stream token terminates the sequence.
pub proof fn lemma_scan_ends_with_eof(src: Seq<char>)
    ensures
        scan_spec(src).tokens.len() >= 1,
        scan_spec(src).tokens.last().token_type == TokenType::Eof,
        forall|i: int|
            0 <= i < scan_spec(src).tokens.len() - 1 ==> scan_spec(src).tokens[i].token_type
                != TokenType::Eof,
{
    lemma_scan_rest_eof(src, 0, 1);
}

proof fn lemma_scan_rest_lines(src: Seq<char>, pos: int, line: int)
    requires
        0 <= pos <= src.len(),
        1 <= line,
    ensures
        ({
            let out = scan_rest(src, pos, line);
            &&& out.tokens.len() >= 1
            &&& forall|i: int| 0 <= i < out.tokens.len() ==> line <= #[trigger] out.tokens[i].line
            &&& forall|i: int|
                0 <= i < out.tokens.len() ==> token_literal_wf(#[trigger] out.tokens[i])
            &&& forall|i: int, j: int|
                0 <= i <= j < out.tokens.len() ==> #[trigger] out.tokens[i].line
                    <= #[trigger] out.tokens[j].line
            &&& out.tokens.last().line == line + newline_count(src, pos, src.len() as int)
            &&& forall|i: int| 0 <= i < out.diags.len() ==> line <= #[trigger] out.diags[i].line
        }),
    decreases src.len() - pos,
{
    if pos >= src.len() {
        assert(newline_count(src, pos, src.len() as int) == 0);
    } else {
        lemma_step(src, pos, line);
        let st = step(src, pos, line);
        lemma_scan_rest_lines(src, st.next, st.line);
        lemma_newline_count_split(src, pos, st.next, src.len() as int);
        let out = scan_rest(src, pos, line);
        let rest = scan_rest(src, st.next, st.line);
        let ofs = opt_token_seq(st.token).len() as int;
        assert(out.tokens == opt_token_seq(st.token) + rest.tokens);
        assert(out.tokens.last() == rest.tokens.last());
        assert forall|i: int| 0 <= i < out.tokens.len() implies line <= #[trigger] out.tokens[i].line
            && token_literal_wf(out.tokens[i]) by {
            if i < ofs {
                match st.token {
                    Some(t) => {
                        assert(out.tokens[i] == t);
                    },
                    None => {
                        assert(false);
                    },
                }
            } else {
                assert(out.tokens[i] == rest.tokens[i - ofs]);
            }
        }
        assert forall|i: int, j: int|
            0 <= i <= j < out.tokens.len() implies #[trigger] out.tokens[i].line
            <= #[trigger] out.tokens[j].line by {
            if ofs <= i {
                assert(out.tokens[i] == rest.tokens[i - ofs]);
                assert(out.tokens[j] == rest.tokens[j - ofs]);
            } else if ofs <= j {
                match st.token {
                    Some(t) => {
                        assert(out.tokens[i] == t);
                        assert(out.tokens[j] == rest.tokens[j - ofs]);
                        assert(st.line <= rest.tokens[j - ofs].line);
                    },
                    None => {
                        assert(false);
                    },
                }
            }
        }
        assert forall|i: int| 0 <= i < out.diags.len() implies line <= #[trigger] out.diags[i].line by {
            let dofs = opt_diag_seq(st.diag).len() as int;
            if i < dofs {
                match st.diag {
                    Some(d) => {
                        assert(out.diags[i] == d);
                    },
                    None => {
                        assert(false);
                    },
                }
            } else {
                assert(out.diags[i] == rest.diags[i - dofs]);
            }
        }
    }
}

/// Law: line numbers track newline count. Every token and every
/// diagnostic reports a line of at least one, the reported lines never
/// decrease along the token sequence, and the terminal end-of-stream
/// token reports exactly one more than the number of newline characters
/// in the whole input.
pub proof fn lemma_line_numbers(src: Seq<char>)
    ensures
        forall|i: int| 0 <= i < scan_spec(src).tokens.len() ==> 1 <= #[trigger] scan_spec(
            src,
        ).tokens[i].line,
        forall|i: int, j: int|
            0 <= i <= j < scan_spec(src).tokens.len() ==> #[trigger] scan_spec(src).tokens[i].line
                <= #[trigger] scan_spec(src).tokens[j].line,
        scan_spec(src).tokens.last().line == 1 + newline_count(src, 0, src.len() as int),
        forall|i: int| 0 <= i < scan_spec(src).diags.len() ==> 1 <= #[trigger] scan_spec(
            src,
        ).diags[i].line,
{
    lemma_scan_rest_lines(src, 0, 1);
    lemma_scan_rest_eof(src, 0, 1);
}

/// Law: only string and number tokens carry a decoded literal, and they
/// always carry one of their own kind.
pub proof fn lemma_token_literals(src: Seq<char>)
    ensures
        forall|i: int|
            0 <= i < scan_spec(src).tokens.len() ==> token_literal_wf(
                #[trigger] scan_spec(src).tokens[i],
            ),
{
    lemma_scan_rest_lines(src, 0, 1);
}

/// The concatenation of the lexemes of a token sequence, in order.
pub open spec fn lexemes_concat(ts: Seq<SpecToken>) -> Seq<char>
    decreases ts.len(),
{
    if ts.len() == 0 {
        Seq::empty()
    } else {
        ts[0].lexeme + lexemes_concat(ts.drop_first())
    }
}

/// The characters of the source that belong to emitted tokens: what is
/// left of the input after removing everything a scan skips (whitespace,
/// newlines, comments, unexpected characters, and the remainder of an
/// unterminated string).
pub open spec fn token_chars(src: Seq<char>, pos: int, line: int) -> Seq<char>
    decreases src.len() - pos
        when 0 <= pos <= src.len()
        via token_chars_decreases
{
    if pos >= src.len() {
        Seq::empty()
    } else {
        let st = step(src, pos, line);
        (if st.token is Some {
            src.subrange(pos, st.next)
        } else {
            Seq::<char>::empty()
        }) + token_chars(src, st.next, st.line)
    }
}

#[via_fn]
proof fn token_chars_decreases(src: Seq<char>, pos: int, line: int) {
    if pos < src.len() {
        lemma_step(src, pos, line);
    }
}

proof fn lemma_round_trip_rest(src: Seq<char>, pos: int, line: int)
    requires
        0 <= pos <= src.len(),
    ensures
        lexemes_concat(scan_rest(src, pos, line).tokens) == token_chars(src, pos, line),
    decreases src.len() - pos,
{
    if pos >= src.len() {
        let out = scan_rest(src, pos, line);
        assert(out.tokens.drop_first() =~= Seq::<SpecToken>::empty());
        assert(out.tokens[0].lexeme + lexemes_concat(out.tokens.drop_first()) =~= Seq::<
            char,
        >::empty());
    } else {
        lemma_step(src, pos, line);
        let st = step(src, pos, line);
        lemma_round_trip_rest(src, st.next, st.line);
        let rest = scan_rest(src, st.next, st.line);
        match st.token {
            Some(t) => {
                let ts = opt_token_seq(st.token) + rest.tokens;
                assert(ts[0] == t);
                assert(ts.drop_first() =~= rest.tokens);
                assert(lexemes_concat(ts) == t.lexeme + lexemes_concat(rest.tokens));
            },
            None => {
                assert(opt_token_seq(st.token) + rest.tokens =~= rest.tokens);
                assert(Seq::<char>::empty() + token_chars(src, st.next, st.line) =~= token_chars(
                    src,
                    st.next,
                    st.line,
                ));
            },
        }
    }
}

/// Law: concatenating each returned token's lexeme in order reconstructs
/// the original source with everything the scan skipped removed. In
/// particular every lexeme, including each string literal's quotes, comes
/// verbatim from the source and in source order.
pub proof fn lemma_round_trip(src: Seq<char>)
    ensures
        lexemes_concat(scan_spec(src).tokens) == token_chars(src, 0, 1),
{
    lemma_round_trip_rest(src, 0, 1);
}

} // verus!
