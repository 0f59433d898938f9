use lox::scanner::Scanner;
use lox::token::Token;
use lox::token::TokenType;
use lox::Lox;

fn scan(source: &str) -> (Vec<Token>, bool) {
    let mut scanner = Scanner::new(source);
    scanner.scan_tokens();
    (scanner.tokens, scanner.had_error)
}

#[test]
fn single_punctuation_tokens() {
    let cases: Vec<(&str, TokenType)> = vec![
        ("(", TokenType::LeftParen),
        (")", TokenType::RightParen),
        ("{", TokenType::LeftBrace),
        ("}", TokenType::RightBrace),
        (",", TokenType::Comma),
        (".", TokenType::Dot),
        ("-", TokenType::Minus),
        ("+", TokenType::Plus),
        (";", TokenType::Semicolon),
        ("*", TokenType::Star),
        ("/", TokenType::Slash),
    ];
    for (src, expected) in cases {
        let (tokens, had_error) = scan(src);
        assert_eq!(tokens.len(), 1, "input {}", src);
        assert_eq!(tokens[0].token_type, expected);
        assert_eq!(tokens[0].lexeme, src);
        assert_eq!(tokens[0].line, 0);
        assert!(!had_error);
    }
}

#[test]
fn one_or_two_char_operators() {
    let cases: Vec<(&str, TokenType)> = vec![
        ("!", TokenType::Bang),
        ("!=", TokenType::BangEqual),
        ("=", TokenType::Equal),
        ("==", TokenType::EqualEqual),
        ("<", TokenType::Less),
        ("<=", TokenType::LessEqual),
        (">", TokenType::Greater),
        (">=", TokenType::GreaterEqual),
    ];
    for (src, expected) in cases {
        let (tokens, had_error) = scan(src);
        assert_eq!(tokens.len(), 1, "input {}", src);
        assert_eq!(tokens[0].token_type, expected);
        assert_eq!(tokens[0].lexeme, src);
        assert!(!had_error);
    }
}

#[test]
fn maximal_munch_bang_equal() {
    // `!=` must not be scanned as `!` followed by `=`
    let (tokens, _) = scan("!=");
    assert_eq!(tokens.len(), 1);
    assert_eq!(tokens[0].token_type, TokenType::BangEqual);
    // but `! =` is two tokens
    let (tokens, _) = scan("! =");
    assert_eq!(tokens.len(), 2);
    assert_eq!(tokens[0].token_type, TokenType::Bang);
    assert_eq!(tokens[1].token_type, TokenType::Equal);
}

#[test]
fn line_comment_is_skipped() {
    let (tokens, had_error) = scan("1 // comment\n2");
    assert_eq!(tokens.len(), 2);
    assert_eq!(tokens[0].token_type, TokenType::Number);
    assert_eq!(tokens[0].lexeme, "1");
    assert_eq!(tokens[0].line, 0);
    assert_eq!(tokens[1].token_type, TokenType::Number);
    assert_eq!(tokens[1].lexeme, "2");
    assert_eq!(tokens[1].line, 1);
    assert!(!had_error);
}

#[test]
fn comment_at_end_of_input() {
    let (tokens, had_error) = scan("// just a comment");
    assert_eq!(tokens.len(), 0);
    assert!(!had_error);
}

#[test]
fn string_literal_payload_and_lexeme() {
    let (tokens, had_error) = scan("\"hello\"");
    assert_eq!(tokens.len(), 1);
    assert_eq!(tokens[0].token_type, TokenType::String("hello".to_string()));
    assert_eq!(tokens[0].lexeme, "\"hello\"");
    assert!(!had_error);
}

#[test]
fn multi_line_string_counts_lines() {
    let mut scanner = Scanner::new("\"a\nb\"");
    scanner.scan_tokens();
    assert_eq!(scanner.tokens.len(), 1);
    assert_eq!(scanner.tokens[0].token_type, TokenType::String("a\nb".to_string()));
    // the token is dated on the line where it started...
    assert_eq!(scanner.tokens[0].line, 0);
    // ...while the line counter accounts for the embedded newline
    assert_eq!(scanner.line, 1);
    assert!(!scanner.had_error);
}

#[test]
fn unterminated_string_raises_diagnostic() {
    let (tokens, had_error) = scan("\"abc");
    assert_eq!(tokens.len(), 0);
    assert!(had_error);
}

#[test]
fn number_with_fraction() {
    let (tokens, had_error) = scan("3.14");
    assert_eq!(tokens.len(), 1);
    assert_eq!(tokens[0].token_type, TokenType::Number);
    assert_eq!(tokens[0].lexeme, "3.14");
    assert_eq!(tokens[0].lexeme.parse::<f32>().unwrap(), 3.14f32);
    assert!(!had_error);
}

#[test]
fn integer_number() {
    let (tokens, _) = scan("42");
    assert_eq!(tokens.len(), 1);
    assert_eq!(tokens[0].token_type, TokenType::Number);
    assert_eq!(tokens[0].lexeme, "42");
    assert_eq!(tokens[0].lexeme.parse::<f32>().unwrap(), 42.0f32);
}

#[test]
fn trailing_dot_is_separate_token() {
    // the fractional part requires a following digit
    let (tokens, had_error) = scan("3.");
    assert_eq!(tokens.len(), 2);
    assert_eq!(tokens[0].token_type, TokenType::Number);
    assert_eq!(tokens[0].lexeme, "3");
    assert_eq!(tokens[0].lexeme.parse::<f32>().unwrap(), 3.0f32);
    assert_eq!(tokens[1].token_type, TokenType::Dot);
    assert!(!had_error);
}

#[test]
fn second_fraction_not_consumed() {
    let (tokens, _) = scan("12.34.5");
    assert_eq!(tokens.len(), 3);
    assert_eq!(tokens[0].token_type, TokenType::Number);
    assert_eq!(tokens[0].lexeme, "12.34");
    assert_eq!(tokens[1].token_type, TokenType::Dot);
    assert_eq!(tokens[2].token_type, TokenType::Number);
    assert_eq!(tokens[2].lexeme, "5");
}

#[test]
fn keyword_versus_identifier() {
    let (tokens, had_error) = scan("for forever");
    assert_eq!(tokens.len(), 2);
    assert_eq!(tokens[0].token_type, TokenType::For);
    assert_eq!(tokens[0].lexeme, "for");
    assert_eq!(tokens[1].token_type, TokenType::Identifier);
    assert_eq!(tokens[1].lexeme, "forever");
    assert!(!had_error);
}

#[test]
fn all_keywords_are_recognized() {
    let cases: Vec<(&str, TokenType)> = vec![
        ("and", TokenType::And),
        ("class", TokenType::Class),
        ("else", TokenType::Else),
        ("false", TokenType::False),
        ("fun", TokenType::Func),
        ("for", TokenType::For),
        ("if", TokenType::If),
        ("nil", TokenType::Nil),
        ("or", TokenType::Or),
        ("print", TokenType::Print),
        ("return", TokenType::Return),
        ("super", TokenType::Super),
        ("this", TokenType::This),
        ("true", TokenType::True),
        ("var", TokenType::Var),
        ("while", TokenType::While),
    ];
    for (src, expected) in cases {
        let (tokens, _) = scan(src);
        assert_eq!(tokens.len(), 1, "input {}", src);
        assert_eq!(tokens[0].token_type, expected);
        assert_eq!(tokens[0].lexeme, src);
    }
}

#[test]
fn identifiers_with_underscores_and_digits() {
    let (tokens, _) = scan("_x y2 While");
    assert_eq!(tokens.len(), 3);
    assert_eq!(tokens[0].token_type, TokenType::Identifier);
    assert_eq!(tokens[0].lexeme, "_x");
    assert_eq!(tokens[1].token_type, TokenType::Identifier);
    assert_eq!(tokens[1].lexeme, "y2");
    // keywords are case-sensitive
    assert_eq!(tokens[2].token_type, TokenType::Identifier);
    assert_eq!(tokens[2].lexeme, "While");
}

#[test]
fn line_numbers_are_monotonic_and_account_for_newlines() {
    let (tokens, had_error) = scan("a\nb\n\nc");
    assert_eq!(tokens.len(), 3);
    assert_eq!(tokens[0].line, 0);
    assert_eq!(tokens[1].line, 1);
    assert_eq!(tokens[2].line, 3);
    let mut prev = 0;
    for t in &tokens {
        assert!(t.line >= prev);
        prev = t.line;
    }
    let mut scanner = Scanner::new("a\nb\n\nc");
    scanner.scan_tokens();
    // three newlines in all, counted from line 0
    assert_eq!(scanner.line, 3);
    assert!(!had_error);
}

#[test]
fn round_trip_of_significant_content() {
    let src = "var x = 1; // trailing\n\"s\" 3.5";
    let (tokens, had_error) = scan(src);
    assert!(!had_error);
    let joined: String = tokens.iter().map(|t| t.lexeme.as_str()).collect::<Vec<_>>().join("");
    assert_eq!(joined, "varx=1;\"s\"3.5");
}

#[test]
fn unrecognized_character_raises_and_resumes() {
    let (tokens, had_error) = scan("@");
    assert_eq!(tokens.len(), 0);
    assert!(had_error);
    let (tokens, had_error) = scan("@ok");
    assert_eq!(tokens.len(), 1);
    assert_eq!(tokens[0].token_type, TokenType::Identifier);
    assert_eq!(tokens[0].lexeme, "ok");
    assert!(had_error);
}

#[test]
fn empty_input_scans_to_nothing() {
    let (tokens, had_error) = scan("");
    assert_eq!(tokens.len(), 0);
    assert!(!had_error);
}

#[test]
fn whitespace_only_input() {
    let (tokens, had_error) = scan(" \r\t");
    assert_eq!(tokens.len(), 0);
    assert!(!had_error);
}

#[test]
fn slash_not_followed_by_slash_is_division() {
    let (tokens, _) = scan("1/2");
    assert_eq!(tokens.len(), 3);
    assert_eq!(tokens[1].token_type, TokenType::Slash);
    assert_eq!(tokens[1].lexeme, "/");
}

#[test]
fn string_may_hold_comment_marker() {
    let (tokens, had_error) = scan("\"a//b\"");
    assert_eq!(tokens.len(), 1);
    assert_eq!(tokens[0].token_type, TokenType::String("a//b".to_string()));
    assert!(!had_error);
}

#[test]
fn token_new_keeps_fields() {
    let t = Token::new(TokenType::Plus, "+".to_string(), 7);
    assert_eq!(t.token_type, TokenType::Plus);
    assert_eq!(t.lexeme, "+");
    assert_eq!(t.line, 7);
}

#[test]
fn lox_new_has_no_error() {
    let lox = Lox::new();
    assert!(!lox.had_error);
}
