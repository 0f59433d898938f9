//! General properties of the scan, stated and proved over the model: what a
//! one-character punctuation input yields, how line numbers grow, and that
//! concatenating the lexemes of the scanned tokens reproduces exactly the
//! significant (non-whitespace, non-comment) content of the source.

use vstd::prelude::*;

use crate::model::alnum_end;
use crate::model::comment_end;
use crate::model::is_alnum_char;
use crate::model::is_alpha_char;
use crate::model::is_blank_char;
use crate::model::is_digit_char;
use crate::model::is_punct_char;
use crate::model::is_two_char_start;
use crate::model::lemma_alnum_end;
use crate::model::lemma_comment_end;
use crate::model::lemma_digits_end;
use crate::model::lemma_newlines_concat;
use crate::model::lemma_newlines_one;
use crate::model::lemma_newlines_zero;
use crate::model::lemma_quote_end;
use crate::model::lemma_step_in_range;
use crate::model::newlines;
use crate::model::number_end;
use crate::model::opt_seq;
use crate::model::punct_kind;
use crate::model::quote_end;
use crate::model::scan_from;
use crate::model::spec_tok;
use crate::model::step;
use crate::model::digits_end;
use crate::token::SpecKind;
use crate::token::SpecToken;

verus! {

/// The kind of the sole token of a one-character punctuation input.
pub open spec fn single_punct_kind(c: char) -> SpecKind {
    if c == '/' {
        SpecKind::Slash
    } else {
        punct_kind(c)
    }
}

/// Scanning a source that consists of one punctuation character yields
/// exactly one token, of the matching kind, whose lexeme is exactly that
/// character, with no diagnostic raised and no line consumed.
pub proof fn lemma_single_punct_token(c: char, line: nat)
    requires
        is_punct_char(c) || c == '/',
    ensures
        ({
            let r = scan_from(seq![c], 0, line);
            &&& r.tokens.len() == 1
            &&& r.tokens[0].kind == single_punct_kind(c)
            &&& r.tokens[0].lexeme == seq![c]
            &&& r.tokens[0].line == line
            &&& !r.error
            &&& r.end_line == line
        }),
{
    let src = seq![c];
    let st = step(src, 0, line);
    lemma_step_in_range(src, 0, line);
    assert(st.next == 1);
    assert(scan_from(src, 1, st.line).tokens =~= Seq::<SpecToken>::empty());
    assert(src.subrange(0, 1) =~= seq![c]);
    assert(scan_from(src, 0, line).tokens =~= opt_seq(st.token));
}

/// One step moves the line counter forward by exactly the newlines it
/// consumed, and a token it emits is dated on the line the step started on —
/// also when the token itself spans lines, as a string literal can.
pub proof fn lemma_step_line(src: Seq<char>, i: int, line: nat)
    requires
        0 <= i < src.len(),
    ensures
        step(src, i, line).line == line + newlines(src, i, step(src, i, line).next),
        step(src, i, line).token matches Some(t) ==> t.line == line,
        line <= step(src, i, line).line,
{
    let st = step(src, i, line);
    let c = src[i];
    lemma_step_in_range(src, i, line);
    lemma_newlines_one(src, i);
    if is_punct_char(c) {
    } else if c == '/' {
        if i + 1 < src.len() && src[i + 1] == '/' {
            let ce = comment_end(src, i + 2);
            lemma_comment_end(src, i + 2);
            lemma_newlines_zero(src, i, ce);
        }
    } else if is_two_char_start(c) {
        if i + 1 < src.len() && src[i + 1] == '=' {
            lemma_newlines_zero(src, i, i + 2);
        }
    } else if c == '\n' {
    } else if is_blank_char(c) {
    } else if c == '"' {
        let close = quote_end(src, i + 1);
        lemma_quote_end(src, i + 1);
        if close < src.len() {
            lemma_newlines_one(src, close);
            lemma_newlines_concat(src, i, i + 1, close + 1);
            lemma_newlines_concat(src, i + 1, close, close + 1);
        } else {
            lemma_newlines_concat(src, i, i + 1, src.len() as int);
        }
    } else if is_digit_char(c) {
        let end = number_end(src, i);
        let d1 = digits_end(src, i + 1);
        lemma_digits_end(src, i + 1);
        if d1 + 1 < src.len() && src[d1] == '.' && is_digit_char(src[d1 + 1]) {
            lemma_digits_end(src, d1 + 1);
        }
        assert forall|j: int| i <= j < end implies src[j] != '\n' by {
            assert(is_digit_char(src[j]) || src[j] == '.');
        }
        lemma_newlines_zero(src, i, end);
    } else if is_alpha_char(c) {
        let end = alnum_end(src, i + 1);
        lemma_alnum_end(src, i + 1);
        lemma_newlines_zero(src, i, end);
    } else {
    }
}

/// The line counter at the end of a scan accounts for every newline between
/// the scan's start position and the end of the input.
pub proof fn lemma_end_line_counts_newlines(src: Seq<char>, i: int, line: nat)
    requires
        0 <= i <= src.len(),
    ensures
        scan_from(src, i, line).end_line == line + newlines(src, i, src.len() as int),
    decreases src.len() - i,
{
    if i >= src.len() {
    } else {
        let st = step(src, i, line);
        lemma_step_in_range(src, i, line);
        lemma_step_line(src, i, line);
        lemma_end_line_counts_newlines(src, st.next, st.line);
        lemma_newlines_concat(src, i, st.next, src.len() as int);
    }
}

/// The line numbers of the scanned tokens are monotonically non-decreasing,
/// never before the line the scan started on and never after the line it
/// ended on.
pub proof fn lemma_token_lines_monotonic(src: Seq<char>, i: int, line: nat)
    requires
        0 <= i <= src.len(),
    ensures
        ({
            let r = scan_from(src, i, line);
            &&& forall|k: int|
                0 <= k < r.tokens.len() ==> line <= (#[trigger] r.tokens[k]).line <= r.end_line
            &&& forall|k: int, m: int|
                0 <= k <= m < r.tokens.len() ==> (#[trigger] r.tokens[k]).line <= (
                #[trigger] r.tokens[m]).line
        }),
    decreases src.len() - i,
{
    if i < src.len() {
        let st = step(src, i, line);
        lemma_step_in_range(src, i, line);
        lemma_step_line(src, i, line);
        lemma_token_lines_monotonic(src, st.next, st.line);
        lemma_end_line_counts_newlines(src, st.next, st.line);
    }
}

/// The concatenation of the lexemes of a token sequence, in order.
pub open spec fn concat_lexemes(ts: Seq<SpecToken>) -> Seq<char>
    decreases ts.len(),
{
    if ts.len() == 0 {
        Seq::empty()
    } else {
        ts[0].lexeme + concat_lexemes(ts.drop_first())
    }
}

pub proof fn lemma_concat_lexemes_cons(t: SpecToken, ts: Seq<SpecToken>)
    ensures
        concat_lexemes(seq![t] + ts) == t.lexeme + concat_lexemes(ts),
{
    let s = seq![t] + ts;
    assert(s.len() == 1 + ts.len());
    assert(s[0] == t);
    assert(s.drop_first() =~= ts);
}

/// A position whose character belongs to some token's lexeme whenever it is
/// scanned: not whitespace, not a quote, and not the start of a line comment.
pub open spec fn plain_at(src: Seq<char>, j: int) -> bool {
    &&& !is_blank_char(src[j])
    &&& src[j] != '\n'
    &&& src[j] != '"'
    &&& (src[j] == '/' ==> !(j + 1 < src.len() && src[j + 1] == '/'))
}

/// The significant content of the source from position `i` on: everything
/// except whitespace, newlines and line comments, defined character by
/// character with no tokenization. A terminated string literal is kept whole
/// (comment markers inside it do not open a comment).
pub open spec fn significant(src: Seq<char>, i: int) -> Seq<char>
    decreases src.len() - i,
{
    if !(0 <= i < src.len()) {
        Seq::empty()
    } else if is_blank_char(src[i]) || src[i] == '\n' {
        significant(src, i + 1)
    } else if src[i] == '/' && i + 1 < src.len() && src[i + 1] == '/' {
        proof {
            lemma_comment_end(src, i + 2);
        }
        significant(src, comment_end(src, i + 2))
    } else if src[i] == '"' {
        proof {
            lemma_quote_end(src, i + 1);
        }
        let close = quote_end(src, i + 1);
        if close < src.len() {
            src.subrange(i, close + 1) + significant(src, close + 1)
        } else {
            src.subrange(i, src.len() as int)
        }
    } else {
        seq![src[i]] + significant(src, i + 1)
    }
}

/// Over a span of plain characters, the significant content is the span
/// itself followed by the significant content after it.
pub proof fn lemma_significant_span(src: Seq<char>, a: int, b: int)
    requires
        0 <= a <= b <= src.len(),
        forall|j: int| a <= j < b ==> plain_at(src, j),
    ensures
        significant(src, a) == src.subrange(a, b) + significant(src, b),
    decreases b - a,
{
    if a == b {
        assert(src.subrange(a, a) =~= Seq::<char>::empty());
        assert(src.subrange(a, a) + significant(src, b) =~= significant(src, b));
    } else {
        assert(plain_at(src, a));
        lemma_significant_span(src, a + 1, b);
        assert(src.subrange(a, b) =~= seq![src[a]] + src.subrange(a + 1, b));
        assert((seq![src[a]] + src.subrange(a + 1, b)) + significant(src, b) =~= seq![src[a]] + (
        src.subrange(a + 1, b) + significant(src, b)));
    }
}

/// Round trip: on a scan that raises no diagnostic, concatenating the
/// lexemes of all tokens in order reproduces exactly the significant content
/// of the source — nothing but whitespace and comments is lost, and nothing
/// is reordered or rewritten.
pub proof fn lemma_round_trip(src: Seq<char>, i: int, line: nat)
    requires
        0 <= i <= src.len(),
        !scan_from(src, i, line).error,
    ensures
        concat_lexemes(scan_from(src, i, line).tokens) == significant(src, i),
    decreases src.len() - i,
{
    if i >= src.len() {
    } else {
        let c = src[i];
        let st = step(src, i, line);
        lemma_step_in_range(src, i, line);
        let r = scan_from(src, i, line);
        let rest = scan_from(src, st.next, st.line);
        lemma_round_trip(src, st.next, st.line);
        if st.token is Some {
            lemma_concat_lexemes_cons(st.token->Some_0, rest.tokens);
        } else {
            assert(r.tokens =~= rest.tokens);
        }
        if is_punct_char(c) {
            assert forall|j: int| i <= j < i + 1 implies plain_at(src, j) by {}
            lemma_significant_span(src, i, i + 1);
        } else if c == '/' {
            if i + 1 < src.len() && src[i + 1] == '/' {
                // both the step and the significant content resume at the
                // same comment end
            } else {
                assert(plain_at(src, i));
                lemma_significant_span(src, i, i + 1);
            }
        } else if is_two_char_start(c) {
            if i + 1 < src.len() && src[i + 1] == '=' {
                assert forall|j: int| i <= j < i + 2 implies plain_at(src, j) by {}
                lemma_significant_span(src, i, i + 2);
            } else {
                assert(plain_at(src, i));
                lemma_significant_span(src, i, i + 1);
            }
        } else if c == '\n' || is_blank_char(c) {
        } else if c == '"' {
            let close = quote_end(src, i + 1);
            lemma_quote_end(src, i + 1);
            assert(close < src.len());
        } else if is_digit_char(c) {
            let end = number_end(src, i);
            let d1 = digits_end(src, i + 1);
            lemma_digits_end(src, i + 1);
            if d1 + 1 < src.len() && src[d1] == '.' && is_digit_char(src[d1 + 1]) {
                lemma_digits_end(src, d1 + 1);
            }
            assert forall|j: int| i <= j < end implies plain_at(src, j) by {
                assert(is_digit_char(src[j]) || src[j] == '.');
            }
            lemma_significant_span(src, i, end);
        } else if is_alpha_char(c) {
            let end = alnum_end(src, i + 1);
            lemma_alnum_end(src, i + 1);
            assert forall|j: int| i <= j < end implies plain_at(src, j) by {
                assert(is_alnum_char(src[j]));
            }
            lemma_significant_span(src, i, end);
        } else {
            assert(st.error);
        }
    }
}

/// The character classes a step recognizes; anything else raises the
/// unexpected-character diagnostic.
pub open spec fn recognized_char(c: char) -> bool {
    is_punct_char(c) || c == '/' || is_two_char_start(c) || c == '\n' || is_blank_char(c) || c
        == '"' || is_digit_char(c) || is_alpha_char(c)
}

/// An unrecognized character produces no token, raises the error signal, and
/// scanning resumes normally at the very next character.
pub proof fn lemma_unrecognized_char(src: Seq<char>, i: int, line: nat)
    requires
        0 <= i < src.len(),
        !recognized_char(src[i]),
    ensures
        ({
            let r = scan_from(src, i, line);
            let rest = scan_from(src, i + 1, line);
            &&& r.tokens == rest.tokens
            &&& r.error
            &&& r.end_line == rest.end_line
        }),
{
    lemma_step_in_range(src, i, line);
    assert(scan_from(src, i, line).tokens =~= scan_from(src, i + 1, line).tokens);
}

} // verus!
