use vstd::prelude::*;

verus! {

/// The kind of a token at the specification level: the payload of a string
/// literal is a character sequence rather than an owned `String`.
#[verifier::ext_equal]
pub enum SpecKind {
    LeftParen,
    RightParen,
    LeftBrace,
    RightBrace,
    Comma,
    Dot,
    Minus,
    Plus,
    Semicolon,
    Slash,
    Star,
    Bang,
    BangEqual,
    Equal,
    EqualEqual,
    Greater,
    GreaterEqual,
    Less,
    LessEqual,
    Identifier,
    StrLit(Seq<char>),
    Number,
    And,
    Class,
    Else,
    False,
    Func,
    For,
    If,
    Nil,
    Or,
    Print,
    Return,
    Super,
    This,
    True,
    Var,
    While,
    Eof,
}

/// A scanned token at the specification level: its kind, the exact slice of
/// source characters it was scanned from, and the line it was emitted on.
#[verifier::ext_equal]
pub struct SpecToken {
    pub kind: SpecKind,
    pub lexeme: Seq<char>,
    pub line: nat,
}

/// The kind of a token. A string literal carries its decoded body (the text
/// strictly between the quotes). A numeric literal carries no payload: its
/// decimal value is the standard reading of the token's lexeme, which is kept
/// as exact source text; converting it to a machine float is left to callers.
#[derive(Debug, PartialEq)]
pub enum TokenType {
    // Single-character tokens.
    LeftParen,
    RightParen,
    LeftBrace,
    RightBrace,
    Comma,
    Dot,
    Minus,
    Plus,
    Semicolon,
    Slash,
    Star,
    // One or two character tokens.
    Bang,
    BangEqual,
    Equal,
    EqualEqual,
    Greater,
    GreaterEqual,
    Less,
    LessEqual,
    // Literals.
    Identifier,
    String(String),
    Number,
    // Keywords.
    And,
    Class,
    Else,
    False,
    Func,
    For,
    If,
    Nil,
    Or,
    Print,
    Return,
    Super,
    This,
    True,
    Var,
    While,
    // Sentinel for consumers that want an explicit terminator; the scan
    // itself stops at end-of-input without emitting one.
    Eof,
}

impl View for TokenType {
    type V = SpecKind;

    open spec fn view(&self) -> SpecKind {
        match self {
            TokenType::LeftParen => SpecKind::LeftParen,
            TokenType::RightParen => SpecKind::RightParen,
            TokenType::LeftBrace => SpecKind::LeftBrace,
            TokenType::RightBrace => SpecKind::RightBrace,
            TokenType::Comma => SpecKind::Comma,
            TokenType::Dot => SpecKind::Dot,
            TokenType::Minus => SpecKind::Minus,
            TokenType::Plus => SpecKind::Plus,
            TokenType::Semicolon => SpecKind::Semicolon,
            TokenType::Slash => SpecKind::Slash,
            TokenType::Star => SpecKind::Star,
            TokenType::Bang => SpecKind::Bang,
            TokenType::BangEqual => SpecKind::BangEqual,
            TokenType::Equal => SpecKind::Equal,
            TokenType::EqualEqual => SpecKind::EqualEqual,
            TokenType::Greater => SpecKind::Greater,
            TokenType::GreaterEqual => SpecKind::GreaterEqual,
            TokenType::Less => SpecKind::Less,
            TokenType::LessEqual => SpecKind::LessEqual,
            TokenType::Identifier => SpecKind::Identifier,
            TokenType::String(s) => SpecKind::StrLit(s@),
            TokenType::Number => SpecKind::Number,
            TokenType::And => SpecKind::And,
            TokenType::Class => SpecKind::Class,
            TokenType::Else => SpecKind::Else,
            TokenType::False => SpecKind::False,
            TokenType::Func => SpecKind::Func,
            TokenType::For => SpecKind::For,
            TokenType::If => SpecKind::If,
            TokenType::Nil => SpecKind::Nil,
            TokenType::Or => SpecKind::Or,
            TokenType::Print => SpecKind::Print,
            TokenType::Return => SpecKind::Return,
            TokenType::Super => SpecKind::Super,
            TokenType::This => SpecKind::This,
            TokenType::True => SpecKind::True,
            TokenType::Var => SpecKind::Var,
            TokenType::While => SpecKind::While,
            TokenType::Eof => SpecKind::Eof,
        }
    }
}

/// A classified, positioned unit of lexical meaning. `lexeme` is always the
/// literal source slice the token was scanned from, never a reconstructed
/// string, so that diagnostics can quote exact source text.
#[derive(Debug, PartialEq)]
pub struct Token {
    pub token_type: TokenType,
    pub lexeme: String,
    pub line: usize,
}

impl View for Token {
    type V = SpecToken;

    open spec fn view(&self) -> SpecToken {
        SpecToken { kind: self.token_type@, lexeme: self.lexeme@, line: self.line as nat }
    }
}

impl Token {
    pub fn new(token_type: TokenType, lexeme: String, line: usize) -> (t: Token)
        ensures
            t@ == (SpecToken { kind: token_type@, lexeme: lexeme@, line: line as nat }),
    {
        Token { token_type, lexeme, line }
    }
}

/// The token sequence a `Vec<Token>` stands for.
pub open spec fn toks_view(ts: Seq<Token>) -> Seq<SpecToken> {
    ts.map_values(|t: Token| t@)
}

pub proof fn lemma_toks_view_push(ts: Seq<Token>, t: Token)
    ensures
        toks_view(ts.push(t)) == toks_view(ts).push(t@),
{
    assert(toks_view(ts.push(t)) =~= toks_view(ts).push(t@));
}

} // verus!
