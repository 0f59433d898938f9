//! The executable scanner. It owns the source text, a character cursor pair
//! (token start, current) and a running line counter, and produces the token
//! sequence together with a flag recording whether any lexical diagnostic was
//! raised. `scan_tokens` is proved to produce exactly `scan_from` of the
//! source, and `scan_token` exactly one `step` of the model.
//!
//! Line numbers are 0-based: the first line of the input is line 0.

use vstd::prelude::*;
use vstd::string::StrSliceExecFns;

use crate::model::alnum_end;
use crate::model::comment_end;
use crate::model::digits_end;
use crate::model::is_alnum_char;
use crate::model::is_alpha_char;
use crate::model::is_digit_char;
use crate::model::keyword_or_ident_kind;
use crate::model::lemma_alnum_end;
use crate::model::lemma_comment_end;
use crate::model::lemma_digits_end;
use crate::model::lemma_quote_end;
use crate::model::lemma_step_in_range;
use crate::model::newlines;
use crate::model::number_end;
use crate::model::opt_seq;
use crate::model::quote_end;
use crate::model::scan_from;
use crate::model::spec_tok;
use crate::model::step;
use crate::token::lemma_toks_view_push;
use crate::token::toks_view;
use crate::token::SpecKind;
use crate::token::SpecToken;
use crate::token::Token;
use crate::token::TokenType;

verus! {

/// Tests whether `lex` spells exactly the word `kw`.
fn lexeme_is(lex: &String, kw: &str) -> (r: bool)
    ensures
        r == (lex@ == kw@),
{
    let owned: String = kw.to_owned();
    *lex == owned
}

/// Classifies a completed identifier lexeme against the fixed keyword table:
/// an exact, case-sensitive match yields the keyword's kind, anything else an
/// identifier.
fn keyword_kind(lex: &String) -> (tt: TokenType)
    ensures
        tt@ == keyword_or_ident_kind(lex@),
{
    if lexeme_is(lex, "and") {
        TokenType::And
    } else if lexeme_is(lex, "class") {
        TokenType::Class
    } else if lexeme_is(lex, "else") {
        TokenType::Else
    } else if lexeme_is(lex, "false") {
        TokenType::False
    } else if lexeme_is(lex, "fun") {
        TokenType::Func
    } else if lexeme_is(lex, "for") {
        TokenType::For
    } else if lexeme_is(lex, "if") {
        TokenType::If
    } else if lexeme_is(lex, "nil") {
        TokenType::Nil
    } else if lexeme_is(lex, "or") {
        TokenType::Or
    } else if lexeme_is(lex, "print") {
        TokenType::Print
    } else if lexeme_is(lex, "return") {
        TokenType::Return
    } else if lexeme_is(lex, "super") {
        TokenType::Super
    } else if lexeme_is(lex, "this") {
        TokenType::This
    } else if lexeme_is(lex, "true") {
        TokenType::True
    } else if lexeme_is(lex, "var") {
        TokenType::Var
    } else if lexeme_is(lex, "while") {
        TokenType::While
    } else {
        TokenType::Identifier
    }
}

/// The scanner: the source text, a cached character view of it for
/// constant-time cursor access, the growing token sequence, the cursor pair
/// and the running line counter, plus the diagnostic flag.
pub struct Scanner<'a> {
    pub source: &'a str,
    pub chars: Vec<char>,
    pub tokens: Vec<Token>,
    pub start: usize,
    pub current: usize,
    pub line: usize,
    pub had_error: bool,
}

impl<'a> Scanner<'a> {
    /// Internal consistency: the character cache mirrors the source, the
    /// cursor pair is ordered and within bounds, and the line counter never
    /// exceeds the number of characters consumed.
    pub open spec fn wf(&self) -> bool {
        &&& self.chars@ == self.source@
        &&& self.start <= self.current
        &&& self.current <= self.source@.len()
        &&& self.line <= self.current
    }

    pub fn new(source: &'a str) -> (s: Scanner<'a>)
        ensures
            s.wf(),
            s.source == source,
            toks_view(s.tokens@) == Seq::<SpecToken>::empty(),
            s.start == 0,
            s.current == 0,
            s.line == 0,
            !s.had_error,
    {
        let n = source.unicode_len();
        let mut chars: Vec<char> = Vec::new();
        let mut i: usize = 0;
        while i < n
            invariant
                i <= n,
                n == source@.len(),
                chars@ == source@.subrange(0, i as int),
            decreases n - i,
        {
            let c = source.get_char(i);
            chars.push(c);
            proof {
                assert(chars@ =~= source@.subrange(0, i as int + 1));
            }
            i = i + 1;
        }
        proof {
            assert(chars@ =~= source@);
            assert(toks_view(Seq::<Token>::empty()) =~= Seq::<SpecToken>::empty());
        }
        Scanner { source, chars, tokens: Vec::new(), start: 0, current: 0, line: 0, had_error: false }
    }

    fn is_at_end(&self) -> (r: bool)
        requires
            self.wf(),
        ensures
            r == (self.current >= self.source@.len()),
    {
        self.current >= self.chars.len()
    }

    /// Consumes and returns the character at the cursor.
    fn advance(&mut self) -> (c: char)
        requires
            old(self).wf(),
            old(self).current < old(self).source@.len(),
        ensures
            final(self).wf(),
            c == old(self).source@[old(self).current as int],
            final(self).current == old(self).current + 1,
            final(self).source == old(self).source,
            final(self).chars@ == old(self).chars@,
            final(self).tokens@ == old(self).tokens@,
            final(self).start == old(self).start,
            final(self).line == old(self).line,
            final(self).had_error == old(self).had_error,
    {
        let c = self.chars[self.current];
        let n = self.chars.len();
        assert(self.current < n);  // the cursor fits in usize after the increment
        self.current = self.current + 1;
        c
    }

    /// The character at the cursor, without consuming it; `None` at the end
    /// of the input.
    fn peek(&self) -> (r: Option<char>)
        requires
            self.wf(),
        ensures
            r == (if self.current < self.source@.len() {
                Some(self.source@[self.current as int])
            } else {
                None::<char>
            }),
    {
        if self.current >= self.chars.len() {
            None
        } else {
            Some(self.chars[self.current])
        }
    }

    /// The character one past the cursor; a NUL sentinel at or past the end
    /// of the input.
    fn peek_next(&self) -> (r: Option<char>)
        requires
            self.wf(),
        ensures
            r == (if self.current + 1 < self.source@.len() {
                Some(self.source@[self.current as int + 1])
            } else {
                Some('\0')
            }),
    {
        if self.chars.len() - self.current <= 1 {
            Some('\0')
        } else {
            Some(self.chars[self.current + 1])
        }
    }

    fn is_digit(&self, val: Option<char>) -> (r: bool)
        ensures
            r == (match val {
                Some(c) => is_digit_char(c),
                None => false,
            }),
    {
        match val {
            Some(c) => '0' as u32 <= c as u32 && c as u32 <= '9' as u32,
            None => false,
        }
    }

    fn is_alpha(&self, val: Option<char>) -> (r: bool)
        ensures
            r == (match val {
                Some(c) => is_alpha_char(c),
                None => false,
            }),
    {
        match val {
            Some(c) => ('a' as u32 <= c as u32 && c as u32 <= 'z' as u32) || ('A' as u32 <= c
                as u32 && c as u32 <= 'Z' as u32) || c == '_',
            None => false,
        }
    }

    fn is_alphanum(&self, val: Option<char>) -> (r: bool)
        ensures
            r == (match val {
                Some(c) => is_alnum_char(c),
                None => false,
            }),
    {
        self.is_digit(val) || self.is_alpha(val)
    }

    /// Consumes the character at the cursor only if it equals `expected`.
    fn check(&mut self, expected: char) -> (r: bool)
        requires
            old(self).wf(),
        ensures
            final(self).wf(),
            r == (old(self).current < old(self).source@.len() && old(self).source@[old(
                self,
            ).current as int] == expected),
            r ==> final(self).current == old(self).current + 1,
            !r ==> final(self).current == old(self).current,
            final(self).source == old(self).source,
            final(self).chars@ == old(self).chars@,
            final(self).tokens@ == old(self).tokens@,
            final(self).start == old(self).start,
            final(self).line == old(self).line,
            final(self).had_error == old(self).had_error,
    {
        if self.current >= self.chars.len() {
            return false;
        }
        let c = self.chars[self.current];
        if c == expected {
            self.current = self.current + 1;
            true
        } else {
            false
        }
    }

    /// The owned copy of the source slice `[from, to)`, in characters.
    fn substring(&self, from: usize, to: usize) -> (s: String)
        requires
            self.wf(),
            from <= to,
            to <= self.source@.len(),
        ensures
            s@ == self.source@.subrange(from as int, to as int),
    {
        let sub: &str = self.source.substring_char(from, to);
        sub.to_owned()
    }

    /// Emits a token whose lexeme is exactly the source slice
    /// `[start, current)` at the moment of the call.
    pub fn add_token(&mut self, token_type: TokenType)
        requires
            old(self).wf(),
        ensures
            final(self).wf(),
            toks_view(final(self).tokens@) == toks_view(old(self).tokens@).push(
                (SpecToken {
                    kind: token_type@,
                    lexeme: old(self).source@.subrange(
                        old(self).start as int,
                        old(self).current as int,
                    ),
                    line: old(self).line as nat,
                }),
            ),
            final(self).source == old(self).source,
            final(self).chars@ == old(self).chars@,
            final(self).start == old(self).start,
            final(self).current == old(self).current,
            final(self).line == old(self).line,
            final(self).had_error == old(self).had_error,
    {
        let lexeme = self.substring(self.start, self.current);
        let token = Token::new(token_type, lexeme, self.line);
        proof {
            lemma_toks_view_push(self.tokens@, token);
        }
        self.tokens.push(token);
    }

    /// Emits a literal token; the lexeme is taken the same way as in
    /// `add_token`, the decoded payload travels inside `token_type`.
    pub fn add_literal(&mut self, token_type: TokenType)
        requires
            old(self).wf(),
        ensures
            final(self).wf(),
            toks_view(final(self).tokens@) == toks_view(old(self).tokens@).push(
                (SpecToken {
                    kind: token_type@,
                    lexeme: old(self).source@.subrange(
                        old(self).start as int,
                        old(self).current as int,
                    ),
                    line: old(self).line as nat,
                }),
            ),
            final(self).source == old(self).source,
            final(self).chars@ == old(self).chars@,
            final(self).start == old(self).start,
            final(self).current == old(self).current,
            final(self).line == old(self).line,
            final(self).had_error == old(self).had_error,
    {
        self.add_token(token_type);
    }

    /// Consumes characters up to, not including, the newline that ends a line
    /// comment (or the end of the input); emits nothing.
    fn skip_comment(&mut self)
        requires
            old(self).wf(),
        ensures
            final(self).wf(),
            final(self).current == comment_end(old(self).source@, old(self).current as int),
            final(self).source == old(self).source,
            final(self).chars@ == old(self).chars@,
            final(self).tokens@ == old(self).tokens@,
            final(self).start == old(self).start,
            final(self).line == old(self).line,
            final(self).had_error == old(self).had_error,
    {
        proof {
            lemma_comment_end(self.source@, self.current as int);
        }
        loop
            invariant
                self.wf(),
                self.source == old(self).source,
                self.chars@ == old(self).chars@,
                self.tokens@ == old(self).tokens@,
                self.start == old(self).start,
                self.line == old(self).line,
                self.had_error == old(self).had_error,
                old(self).current <= self.current,
                comment_end(self.source@, self.current as int) == comment_end(
                    old(self).source@,
                    old(self).current as int,
                ),
            ensures
                self.wf(),
                self.source == old(self).source,
                self.chars@ == old(self).chars@,
                self.tokens@ == old(self).tokens@,
                self.start == old(self).start,
                self.line == old(self).line,
                self.had_error == old(self).had_error,
                self.current as int == comment_end(old(self).source@, old(self).current as int),
            decreases self.source@.len() - self.current,
        {
            if self.is_at_end() {
                break ;
            }
            let c = self.chars[self.current];
            if c == '\n' {
                break ;
            }
            self.advance();
        }
    }

    /// Scans the rest of a string literal after its opening quote, tracking
    /// line increments for embedded newlines. On a terminated literal it
    /// emits a `String` token whose payload is the text strictly between the
    /// quotes, dated on the line where the literal started; when the input
    /// ends first it raises the unterminated-string diagnostic and emits
    /// nothing.
    fn scan_string(&mut self)
        requires
            old(self).wf(),
            old(self).start + 1 == old(self).current,
            old(self).start < old(self).source@.len(),
            old(self).source@[old(self).start as int] == '"',
        ensures
            final(self).wf(),
            final(self).source == old(self).source,
            final(self).chars@ == old(self).chars@,
            final(self).start == old(self).start,
            ({
                let src = old(self).source@;
                let i = old(self).start as int;
                let close = quote_end(src, i + 1);
                let l2 = old(self).line as nat + newlines(src, i + 1, close);
                if close < src.len() {
                    &&& final(self).current == close + 1
                    &&& final(self).line as nat == l2
                    &&& toks_view(final(self).tokens@) == toks_view(old(self).tokens@).push(
                        (SpecToken {
                            kind: SpecKind::StrLit(src.subrange(i + 1, close)),
                            lexeme: src.subrange(i, close + 1),
                            line: old(self).line as nat,
                        }),
                    )
                    &&& final(self).had_error == old(self).had_error
                } else {
                    &&& final(self).current == src.len()
                    &&& final(self).line as nat == l2
                    &&& toks_view(final(self).tokens@) == toks_view(old(self).tokens@)
                    &&& final(self).had_error
                }
            }),
    {
        proof {
            lemma_quote_end(self.source@, self.current as int);
        }
        let ghost src = old(self).source@;
        let ghost i = old(self).start as int;
        let ghost close = quote_end(src, i + 1);
        // embedded newlines are counted aside, so that the token is emitted
        // on the line it started on; the line counter advances afterwards
        let mut nl: usize = 0;
        loop
            invariant
                self.wf(),
                self.source == old(self).source,
                self.chars@ == old(self).chars@,
                self.tokens@ == old(self).tokens@,
                self.start == old(self).start,
                self.line == old(self).line,
                self.had_error == old(self).had_error,
                src == self.source@,
                i == self.start as int,
                i + 1 <= self.current,
                close == quote_end(src, i + 1),
                quote_end(src, self.current as int) == close,
                nl as nat == newlines(src, i + 1, self.current as int),
                self.line + nl <= self.current,
            ensures
                self.wf(),
                self.source == old(self).source,
                self.chars@ == old(self).chars@,
                self.tokens@ == old(self).tokens@,
                self.start == old(self).start,
                self.line == old(self).line,
                self.had_error == old(self).had_error,
                src == self.source@,
                i == self.start as int,
                i + 1 <= self.current,
                self.current as int == close,
                nl as nat == newlines(src, i + 1, close),
                self.line + nl <= self.current,
            decreases src.len() - self.current,
        {
            if self.is_at_end() {
                break ;
            }
            let c = self.chars[self.current];
            if c == '"' {
                break ;
            }
            self.advance();
            if c == '\n' {
                nl = nl + 1;
            }
        }
        if self.is_at_end() {
            // unterminated string: raise the diagnostic, emit nothing
            self.had_error = true;
            self.line = self.line + nl;
            return ;
        }
        self.advance();
        let payload = self.substring(self.start + 1, self.current - 1);
        self.add_token(TokenType::String(payload));
        self.line = self.line + nl;
    }

    /// Scans the rest of a numeric literal after its first digit: a digit
    /// run, extended past a single `.` only when at least one digit follows,
    /// then emits a `Number` token.
    fn scan_number(&mut self)
        requires
            old(self).wf(),
            old(self).start + 1 == old(self).current,
            old(self).start < old(self).source@.len(),
            is_digit_char(old(self).source@[old(self).start as int]),
        ensures
            final(self).wf(),
            final(self).source == old(self).source,
            final(self).chars@ == old(self).chars@,
            final(self).start == old(self).start,
            final(self).line == old(self).line,
            final(self).had_error == old(self).had_error,
            final(self).current == number_end(old(self).source@, old(self).start as int),
            toks_view(final(self).tokens@) == toks_view(old(self).tokens@).push(
                spec_tok(
                    SpecKind::Number,
                    old(self).source@,
                    old(self).start as int,
                    number_end(old(self).source@, old(self).start as int),
                    old(self).line as nat,
                ),
            ),
    {
        let ghost src = old(self).source@;
        let ghost i = old(self).start as int;
        proof {
            lemma_digits_end(src, i + 1);
        }
        let ghost d1 = digits_end(src, i + 1);
        loop
            invariant
                self.wf(),
                self.source == old(self).source,
                self.chars@ == old(self).chars@,
                self.tokens@ == old(self).tokens@,
                self.start == old(self).start,
                self.line == old(self).line,
                self.had_error == old(self).had_error,
                src == self.source@,
                i == self.start as int,
                i + 1 <= self.current,
                d1 == digits_end(src, i + 1),
                digits_end(src, self.current as int) == d1,
            ensures
                self.wf(),
                self.source == old(self).source,
                self.chars@ == old(self).chars@,
                self.tokens@ == old(self).tokens@,
                self.start == old(self).start,
                self.line == old(self).line,
                self.had_error == old(self).had_error,
                src == self.source@,
                i == self.start as int,
                i + 1 <= self.current,
                self.current as int == d1,
            decreases src.len() - self.current,
        {
            let p = self.peek();
            if !self.is_digit(p) {
                break ;
            }
            self.advance();
        }
        let p = self.peek();
        let dot = match p {
            Some(c) => c == '.',
            None => false,
        };
        let pn = self.peek_next();
        if dot && self.is_digit(pn) {
            self.advance();
            proof {
                lemma_digits_end(src, d1 + 1);
            }
            loop
                invariant
                    self.wf(),
                    self.source == old(self).source,
                    self.chars@ == old(self).chars@,
                    self.tokens@ == old(self).tokens@,
                    self.start == old(self).start,
                    self.line == old(self).line,
                    self.had_error == old(self).had_error,
                    src == self.source@,
                    i == self.start as int,
                    d1 == digits_end(src, i + 1),
                    d1 + 1 < src.len(),
                    src[d1] == '.',
                    is_digit_char(src[d1 + 1]),
                    d1 + 1 <= self.current,
                    digits_end(src, self.current as int) == digits_end(src, d1 + 1),
                ensures
                    self.wf(),
                    self.source == old(self).source,
                    self.chars@ == old(self).chars@,
                    self.tokens@ == old(self).tokens@,
                    self.start == old(self).start,
                    self.line == old(self).line,
                    self.had_error == old(self).had_error,
                    src == self.source@,
                    i == self.start as int,
                    d1 == digits_end(src, i + 1),
                    d1 + 1 < src.len(),
                    src[d1] == '.',
                    is_digit_char(src[d1 + 1]),
                    self.current as int == digits_end(src, d1 + 1),
                decreases src.len() - self.current,
            {
                let p2 = self.peek();
                if !self.is_digit(p2) {
                    break ;
                }
                self.advance();
            }
        }
        self.add_token(TokenType::Number);
    }

    /// Scans the rest of an identifier or keyword after its first character:
    /// the alphanumeric run, classified against the keyword table.
    fn scan_identifier(&mut self)
        requires
            old(self).wf(),
            old(self).start + 1 == old(self).current,
            old(self).start < old(self).source@.len(),
            is_alpha_char(old(self).source@[old(self).start as int]),
        ensures
            final(self).wf(),
            final(self).source == old(self).source,
            final(self).chars@ == old(self).chars@,
            final(self).start == old(self).start,
            final(self).line == old(self).line,
            final(self).had_error == old(self).had_error,
            final(self).current == alnum_end(old(self).source@, old(self).start as int + 1),
            toks_view(final(self).tokens@) == toks_view(old(self).tokens@).push(
                spec_tok(
                    keyword_or_ident_kind(
                        old(self).source@.subrange(
                            old(self).start as int,
                            alnum_end(old(self).source@, old(self).start as int + 1),
                        ),
                    ),
                    old(self).source@,
                    old(self).start as int,
                    alnum_end(old(self).source@, old(self).start as int + 1),
                    old(self).line as nat,
                ),
            ),
    {
        let ghost src = old(self).source@;
        let ghost i = old(self).start as int;
        proof {
            lemma_alnum_end(src, i + 1);
        }
        let ghost end = alnum_end(src, i + 1);
        loop
            invariant
                self.wf(),
                self.source == old(self).source,
                self.chars@ == old(self).chars@,
                self.tokens@ == old(self).tokens@,
                self.start == old(self).start,
                self.line == old(self).line,
                self.had_error == old(self).had_error,
                src == self.source@,
                i == self.start as int,
                i + 1 <= self.current,
                end == alnum_end(src, i + 1),
                alnum_end(src, self.current as int) == end,
            ensures
                self.wf(),
                self.source == old(self).source,
                self.chars@ == old(self).chars@,
                self.tokens@ == old(self).tokens@,
                self.start == old(self).start,
                self.line == old(self).line,
                self.had_error == old(self).had_error,
                src == self.source@,
                i == self.start as int,
                i + 1 <= self.current,
                self.current as int == end,
            decreases src.len() - self.current,
        {
            let p = self.peek();
            if !self.is_alphanum(p) {
                break ;
            }
            self.advance();
        }
        let lex = self.substring(self.start, self.current);
        let tt = keyword_kind(&lex);
        self.add_token(tt);
    }

    /// One step of the scan: consumes one or more characters at the cursor
    /// and either emits exactly zero or one token, advances the line count,
    /// or raises a diagnostic — exactly as the model's `step` says. At the
    /// end of the input it changes nothing.
    pub fn scan_token(&mut self)
        requires
            old(self).wf(),
            old(self).start == old(self).current,
        ensures
            final(self).wf(),
            final(self).source == old(self).source,
            final(self).chars@ == old(self).chars@,
            final(self).start == old(self).start,
            old(self).current >= old(self).source@.len() ==> (final(self).current == old(self).current
                && final(self).line == old(self).line && toks_view(final(self).tokens@) == toks_view(
                old(self).tokens@,
            ) && final(self).had_error == old(self).had_error),
            old(self).current < old(self).source@.len() ==> ({
                let st = step(old(self).source@, old(self).current as int, old(self).line as nat);
                &&& final(self).current == st.next
                &&& final(self).line as nat == st.line
                &&& toks_view(final(self).tokens@) == toks_view(old(self).tokens@) + opt_seq(st.token)
                &&& final(self).had_error == (old(self).had_error || st.error)
            }),
    {
        if self.is_at_end() {
            return ;
        }
        let ghost src = old(self).source@;
        let ghost i = old(self).current as int;
        let ghost st = step(src, i, old(self).line as nat);
        let c = self.advance();
        match c {
            '(' => self.add_token(TokenType::LeftParen),
            ')' => self.add_token(TokenType::RightParen),
            '{' => self.add_token(TokenType::LeftBrace),
            '}' => self.add_token(TokenType::RightBrace),
            ',' => self.add_token(TokenType::Comma),
            '.' => self.add_token(TokenType::Dot),
            '-' => self.add_token(TokenType::Minus),
            '+' => self.add_token(TokenType::Plus),
            ';' => self.add_token(TokenType::Semicolon),
            '*' => self.add_token(TokenType::Star),
            '\n' => {
                self.line = self.line + 1;
            },
            ' ' | '\r' | '\t' => (),
            '/' => {
                if self.check('/') {
                    self.skip_comment();
                } else {
                    self.add_token(TokenType::Slash);
                }
            },
            '!' => {
                if self.check('=') {
                    self.add_token(TokenType::BangEqual);
                } else {
                    self.add_token(TokenType::Bang);
                }
            },
            '=' => {
                if self.check('=') {
                    self.add_token(TokenType::EqualEqual);
                } else {
                    self.add_token(TokenType::Equal);
                }
            },
            '<' => {
                if self.check('=') {
                    self.add_token(TokenType::LessEqual);
                } else {
                    self.add_token(TokenType::Less);
                }
            },
            '>' => {
                if self.check('=') {
                    self.add_token(TokenType::GreaterEqual);
                } else {
                    self.add_token(TokenType::Greater);
                }
            },
            '"' => self.scan_string(),
            _ => {
                if self.is_digit(Some(c)) {
                    self.scan_number();
                } else if self.is_alphanum(Some(c)) {
                    self.scan_identifier();
                } else {
                    // unrecognized character: raise the diagnostic, emit nothing
                    self.had_error = true;
                }
            },
        }
        proof {
            assert(toks_view(self.tokens@) =~= toks_view(old(self).tokens@) + opt_seq(st.token));
        }
    }

    /// Drives the scan to completion: repeated `scan_token` steps until the
    /// cursor reaches the end of the input. Appends exactly the model's token
    /// sequence, accumulates its diagnostic flag, and leaves the line counter
    /// at the model's final line.
    pub fn scan_tokens(&mut self)
        requires
            old(self).wf(),
        ensures
            final(self).wf(),
            final(self).source == old(self).source,
            final(self).current == final(self).source@.len(),
            ({
                let r = scan_from(old(self).source@, old(self).current as int, old(self).line as nat);
                &&& toks_view(final(self).tokens@) == toks_view(old(self).tokens@) + r.tokens
                &&& final(self).had_error == (old(self).had_error || r.error)
                &&& final(self).line as nat == r.end_line
            }),
    {
        let ghost src = old(self).source@;
        let ghost r = scan_from(src, old(self).current as int, old(self).line as nat);
        let ghost e0 = old(self).had_error;
        let ghost mut produced: Seq<SpecToken> = Seq::empty();
        let ghost mut errs: bool = false;
        proof {
            assert(toks_view(self.tokens@) =~= toks_view(old(self).tokens@) + produced);
        }
        loop
            invariant
                self.wf(),
                self.source == old(self).source,
                self.chars@ == old(self).chars@,
                src == self.source@,
                e0 == old(self).had_error,
                r == scan_from(src, old(self).current as int, old(self).line as nat),
                toks_view(self.tokens@) == toks_view(old(self).tokens@) + produced,
                self.had_error == (e0 || errs),
                ({
                    let rem = scan_from(src, self.current as int, self.line as nat);
                    &&& r.tokens == produced + rem.tokens
                    &&& r.error == (errs || rem.error)
                    &&& r.end_line == rem.end_line
                }),
            ensures
                self.wf(),
                self.source == old(self).source,
                src == self.source@,
                self.current == self.source@.len(),
                toks_view(self.tokens@) == toks_view(old(self).tokens@) + produced,
                self.had_error == (e0 || errs),
                ({
                    let rem = scan_from(src, self.current as int, self.line as nat);
                    &&& r.tokens == produced + rem.tokens
                    &&& r.error == (errs || rem.error)
                    &&& r.end_line == rem.end_line
                }),
            decreases src.len() - self.current,
        {
            if self.is_at_end() {
                break ;
            }
            self.start = self.current;
            let ghost st = step(src, self.current as int, self.line as nat);
            let ghost rem_pre = scan_from(src, self.current as int, self.line as nat);
            proof {
                lemma_step_in_range(src, self.current as int, self.line as nat);
            }
            self.scan_token();
            proof {
                produced = produced + opt_seq(st.token);
                errs = errs || st.error;
                let rem_post = scan_from(src, self.current as int, self.line as nat);
                assert(rem_pre.tokens == opt_seq(st.token) + rem_post.tokens);
                assert(toks_view(self.tokens@) =~= toks_view(old(self).tokens@) + produced);
                assert(r.tokens =~= produced + rem_post.tokens);
            }
        }
        proof {
            let rem = scan_from(src, self.current as int, self.line as nat);
            assert(rem.tokens =~= Seq::<SpecToken>::empty());
            assert(r.tokens =~= produced);
            assert(toks_view(self.tokens@) =~= toks_view(old(self).tokens@) + r.tokens);
        }
    }
}

} // verus!
