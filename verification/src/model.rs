//! The mathematical model of the scan: total character classes, the ends of
//! character runs, a single dispatch step, and the full scan as a recursive
//! function over the source character sequence. The executable scanner is
//! proved to follow this model step by step.

use vstd::prelude::*;

use crate::token::SpecKind;
use crate::token::SpecToken;

verus! {

/// Decimal digit, `0` through `9`.
pub open spec fn is_digit_char(c: char) -> bool {
    '0' as u32 <= c as u32 && c as u32 <= '9' as u32
}

/// Alphabetic, `a`-`z`, `A`-`Z`, or `_`.
pub open spec fn is_alpha_char(c: char) -> bool {
    ('a' as u32 <= c as u32 && c as u32 <= 'z' as u32) || ('A' as u32 <= c as u32 && c as u32
        <= 'Z' as u32) || c == '_'
}

pub open spec fn is_alnum_char(c: char) -> bool {
    is_digit_char(c) || is_alpha_char(c)
}

/// Insignificant whitespace that emits no token and changes no line count.
pub open spec fn is_blank_char(c: char) -> bool {
    c == ' ' || c == '\r' || c == '\t'
}

/// Structural punctuation emitted immediately as a single-character token.
/// `/` is not here: it may open a line comment and is dispatched separately.
pub open spec fn is_punct_char(c: char) -> bool {
    c == '(' || c == ')' || c == '{' || c == '}' || c == ',' || c == '.' || c == '-' || c == '+'
        || c == ';' || c == '*'
}

/// Characters that form a two-character token when followed by `=`.
pub open spec fn is_two_char_start(c: char) -> bool {
    c == '!' || c == '=' || c == '<' || c == '>'
}

pub open spec fn punct_kind(c: char) -> SpecKind
    recommends
        is_punct_char(c),
{
    if c == '(' {
        SpecKind::LeftParen
    } else if c == ')' {
        SpecKind::RightParen
    } else if c == '{' {
        SpecKind::LeftBrace
    } else if c == '}' {
        SpecKind::RightBrace
    } else if c == ',' {
        SpecKind::Comma
    } else if c == '.' {
        SpecKind::Dot
    } else if c == '-' {
        SpecKind::Minus
    } else if c == '+' {
        SpecKind::Plus
    } else if c == ';' {
        SpecKind::Semicolon
    } else {
        SpecKind::Star
    }
}

pub open spec fn one_char_kind(c: char) -> SpecKind
    recommends
        is_two_char_start(c),
{
    if c == '!' {
        SpecKind::Bang
    } else if c == '=' {
        SpecKind::Equal
    } else if c == '<' {
        SpecKind::Less
    } else {
        SpecKind::Greater
    }
}

pub open spec fn two_char_kind(c: char) -> SpecKind
    recommends
        is_two_char_start(c),
{
    if c == '!' {
        SpecKind::BangEqual
    } else if c == '=' {
        SpecKind::EqualEqual
    } else if c == '<' {
        SpecKind::LessEqual
    } else {
        SpecKind::GreaterEqual
    }
}

/// The fixed keyword table: an exact, case-sensitive match maps to the
/// keyword's kind, anything else is an identifier.
pub open spec fn keyword_or_ident_kind(s: Seq<char>) -> SpecKind {
    if s == "and"@ {
        SpecKind::And
    } else if s == "class"@ {
        SpecKind::Class
    } else if s == "else"@ {
        SpecKind::Else
    } else if s == "false"@ {
        SpecKind::False
    } else if s == "fun"@ {
        SpecKind::Func
    } else if s == "for"@ {
        SpecKind::For
    } else if s == "if"@ {
        SpecKind::If
    } else if s == "nil"@ {
        SpecKind::Nil
    } else if s == "or"@ {
        SpecKind::Or
    } else if s == "print"@ {
        SpecKind::Print
    } else if s == "return"@ {
        SpecKind::Return
    } else if s == "super"@ {
        SpecKind::Super
    } else if s == "this"@ {
        SpecKind::This
    } else if s == "true"@ {
        SpecKind::True
    } else if s == "var"@ {
        SpecKind::Var
    } else if s == "while"@ {
        SpecKind::While
    } else {
        SpecKind::Identifier
    }
}

/// First position at or after `i` holding a newline, or the input's length:
/// where a line comment opened before `i` stops consuming.
pub open spec fn comment_end(src: Seq<char>, i: int) -> int
    decreases src.len() - i,
{
    if !(0 <= i < src.len()) {
        src.len() as int
    } else if src[i] == '\n' {
        i
    } else {
        comment_end(src, i + 1)
    }
}

/// First position at or after `i` holding a closing `"`, or the input's
/// length when the string literal is unterminated.
pub open spec fn quote_end(src: Seq<char>, i: int) -> int
    decreases src.len() - i,
{
    if !(0 <= i < src.len()) {
        src.len() as int
    } else if src[i] == '"' {
        i
    } else {
        quote_end(src, i + 1)
    }
}

/// First position at or after `i` holding a non-digit, or the input's length.
pub open spec fn digits_end(src: Seq<char>, i: int) -> int
    decreases src.len() - i,
{
    if !(0 <= i < src.len()) {
        src.len() as int
    } else if is_digit_char(src[i]) {
        digits_end(src, i + 1)
    } else {
        i
    }
}

/// First position at or after `i` holding a non-alphanumeric, or the input's
/// length.
pub open spec fn alnum_end(src: Seq<char>, i: int) -> int
    decreases src.len() - i,
{
    if !(0 <= i < src.len()) {
        src.len() as int
    } else if is_alnum_char(src[i]) {
        alnum_end(src, i + 1)
    } else {
        i
    }
}

pub proof fn lemma_comment_end(src: Seq<char>, i: int)
    requires
        0 <= i <= src.len(),
    ensures
        i <= comment_end(src, i) <= src.len(),
        forall|j: int| i <= j < comment_end(src, i) ==> src[j] != '\n',
        comment_end(src, i) < src.len() ==> src[comment_end(src, i)] == '\n',
    decreases src.len() - i,
{
    if i < src.len() && src[i] != '\n' {
        lemma_comment_end(src, i + 1);
    }
}

pub proof fn lemma_quote_end(src: Seq<char>, i: int)
    requires
        0 <= i <= src.len(),
    ensures
        i <= quote_end(src, i) <= src.len(),
        forall|j: int| i <= j < quote_end(src, i) ==> src[j] != '"',
        quote_end(src, i) < src.len() ==> src[quote_end(src, i)] == '"',
    decreases src.len() - i,
{
    if i < src.len() && src[i] != '"' {
        lemma_quote_end(src, i + 1);
    }
}

pub proof fn lemma_digits_end(src: Seq<char>, i: int)
    requires
        0 <= i <= src.len(),
    ensures
        i <= digits_end(src, i) <= src.len(),
        forall|j: int| i <= j < digits_end(src, i) ==> is_digit_char(src[j]),
        digits_end(src, i) < src.len() ==> !is_digit_char(src[digits_end(src, i)]),
    decreases src.len() - i,
{
    if i < src.len() && is_digit_char(src[i]) {
        lemma_digits_end(src, i + 1);
    }
}

pub proof fn lemma_alnum_end(src: Seq<char>, i: int)
    requires
        0 <= i <= src.len(),
    ensures
        i <= alnum_end(src, i) <= src.len(),
        forall|j: int| i <= j < alnum_end(src, i) ==> is_alnum_char(src[j]),
        alnum_end(src, i) < src.len() ==> !is_alnum_char(src[alnum_end(src, i)]),
    decreases src.len() - i,
{
    if i < src.len() && is_alnum_char(src[i]) {
        lemma_alnum_end(src, i + 1);
    }
}

/// Count of newline characters in `src[i..j)`.
pub open spec fn newlines(src: Seq<char>, i: int, j: int) -> nat
    decreases j - i,
{
    if i >= j {
        0
    } else {
        newlines(src, i, j - 1) + (if src[j - 1] == '\n' {
            1nat
        } else {
            0nat
        })
    }
}

pub proof fn lemma_newlines_concat(src: Seq<char>, a: int, b: int, c: int)
    requires
        a <= b <= c,
    ensures
        newlines(src, a, c) == newlines(src, a, b) + newlines(src, b, c),
    decreases c - b,
{
    if b < c {
        lemma_newlines_concat(src, a, b, c - 1);
    }
}

pub proof fn lemma_newlines_one(src: Seq<char>, i: int)
    ensures
        newlines(src, i, i + 1) == (if src[i] == '\n' {
            1nat
        } else {
            0nat
        }),
{
    assert(newlines(src, i, i) == 0);
}

pub proof fn lemma_newlines_zero(src: Seq<char>, a: int, b: int)
    requires
        a <= b,
        forall|j: int| a <= j < b ==> src[j] != '\n',
    ensures
        newlines(src, a, b) == 0,
    decreases b - a,
{
    if a < b {
        lemma_newlines_zero(src, a, b - 1);
    }
}

/// Where a numeric literal opened at `i` ends: the digit run, extended past a
/// single `.` only when at least one digit follows it.
pub open spec fn number_end(src: Seq<char>, i: int) -> int
    recommends
        0 <= i < src.len(),
        is_digit_char(src[i]),
{
    let d1 = digits_end(src, i + 1);
    if d1 + 1 < src.len() && src[d1] == '.' && is_digit_char(src[d1 + 1]) {
        digits_end(src, d1 + 1)
    } else {
        d1
    }
}

/// The outcome of one dispatch step: the cursor after the step, the line
/// count after it, the token emitted (if any), and whether a lexical
/// diagnostic was raised.
#[verifier::ext_equal]
pub struct ScanStep {
    pub next: int,
    pub line: nat,
    pub token: Option<SpecToken>,
    pub error: bool,
}

pub open spec fn spec_tok(kind: SpecKind, src: Seq<char>, start: int, end: int, line: nat) -> SpecToken {
    SpecToken { kind: kind, lexeme: src.subrange(start, end), line: line }
}

/// One step of the scan: dispatch on the character at `i`.
pub open spec fn step(src: Seq<char>, i: int, line: nat) -> ScanStep
    recommends
        0 <= i < src.len(),
{
    let c = src[i];
    if is_punct_char(c) {
        ScanStep {
            next: i + 1,
            line: line,
            token: Some(spec_tok(punct_kind(c), src, i, i + 1, line)),
            error: false,
        }
    } else if c == '/' {
        if i + 1 < src.len() && src[i + 1] == '/' {
            ScanStep { next: comment_end(src, i + 2), line: line, token: None, error: false }
        } else {
            ScanStep {
                next: i + 1,
                line: line,
                token: Some(spec_tok(SpecKind::Slash, src, i, i + 1, line)),
                error: false,
            }
        }
    } else if is_two_char_start(c) {
        if i + 1 < src.len() && src[i + 1] == '=' {
            ScanStep {
                next: i + 2,
                line: line,
                token: Some(spec_tok(two_char_kind(c), src, i, i + 2, line)),
                error: false,
            }
        } else {
            ScanStep {
                next: i + 1,
                line: line,
                token: Some(spec_tok(one_char_kind(c), src, i, i + 1, line)),
                error: false,
            }
        }
    } else if c == '\n' {
        ScanStep { next: i + 1, line: line + 1, token: None, error: false }
    } else if is_blank_char(c) {
        ScanStep { next: i + 1, line: line, token: None, error: false }
    } else if c == '"' {
        let close = quote_end(src, i + 1);
        let l2 = line + newlines(src, i + 1, close);
        if close < src.len() {
            // the token is dated on the line it started on; the running line
            // counter accounts for the newlines inside the literal
            ScanStep {
                next: close + 1,
                line: l2,
                token: Some(
                    SpecToken {
                        kind: SpecKind::StrLit(src.subrange(i + 1, close)),
                        lexeme: src.subrange(i, close + 1),
                        line: line,
                    },
                ),
                error: false,
            }
        } else {
            // unterminated string: a diagnostic, no token
            ScanStep { next: src.len() as int, line: l2, token: None, error: true }
        }
    } else if is_digit_char(c) {
        let end = number_end(src, i);
        ScanStep {
            next: end,
            line: line,
            token: Some(spec_tok(SpecKind::Number, src, i, end, line)),
            error: false,
        }
    } else if is_alpha_char(c) {
        let end = alnum_end(src, i + 1);
        ScanStep {
            next: end,
            line: line,
            token: Some(spec_tok(keyword_or_ident_kind(src.subrange(i, end)), src, i, end, line)),
            error: false,
        }
    } else {
        // unrecognized character: a diagnostic, no token
        ScanStep { next: i + 1, line: line, token: None, error: true }
    }
}

/// Every step consumes at least one character and stays within the input.
pub proof fn lemma_step_in_range(src: Seq<char>, i: int, line: nat)
    requires
        0 <= i < src.len(),
    ensures
        i < step(src, i, line).next <= src.len(),
{
    let c = src[i];
    if is_punct_char(c) {
    } else if c == '/' {
        if i + 1 < src.len() && src[i + 1] == '/' {
            lemma_comment_end(src, i + 2);
        }
    } else if c == '"' {
        lemma_quote_end(src, i + 1);
    } else if !is_two_char_start(c) && c != '\n' && !is_blank_char(c) && is_digit_char(c) {
        lemma_digits_end(src, i + 1);
        let d1 = digits_end(src, i + 1);
        if d1 + 1 < src.len() && src[d1] == '.' && is_digit_char(src[d1 + 1]) {
            lemma_digits_end(src, d1 + 1);
        }
    } else if !is_two_char_start(c) && c != '\n' && !is_blank_char(c) && is_alpha_char(c) {
        lemma_alnum_end(src, i + 1);
    }
}

pub open spec fn opt_seq(t: Option<SpecToken>) -> Seq<SpecToken> {
    match t {
        Some(t0) => seq![t0],
        None => Seq::empty(),
    }
}

/// The outcome of a whole scan: the emitted tokens in order, whether any
/// lexical diagnostic was raised, and the line count when the scan stopped.
#[verifier::ext_equal]
pub struct ScanResult {
    pub tokens: Seq<SpecToken>,
    pub error: bool,
    pub end_line: nat,
}

/// The full scan of `src` from position `i` on line `line`: repeated dispatch
/// steps until the cursor reaches the end of the input.
pub open spec fn scan_from(src: Seq<char>, i: int, line: nat) -> ScanResult
    decreases src.len() - i,
{
    if !(0 <= i < src.len()) {
        ScanResult { tokens: Seq::empty(), error: false, end_line: line }
    } else {
        let st = step(src, i, line);
        proof {
            lemma_step_in_range(src, i, line);
        }
        let rest = scan_from(src, st.next, st.line);
        ScanResult {
            tokens: opt_seq(st.token) + rest.tokens,
            error: st.error || rest.error,
            end_line: rest.end_line,
        }
    }
}

} // verus!
