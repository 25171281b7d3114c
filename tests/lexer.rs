use expr_lexer::lexer::{Lexer, Token};
use expr_lexer::scan::{LexError, TokenType};

fn scan(input: &str) -> Vec<Result<(TokenType, String, usize), LexError>> {
    let mut lexer = Lexer::new(input);
    let mut out = Vec::new();
    while let Some(r) = lexer.next() {
        out.push(r.map(|t| (t.ttype, t.sequence.to_string(), t.pos)));
    }
    out
}

fn only_token(input: &str) -> (TokenType, String, usize) {
    let all = scan(input);
    assert_eq!(all.len(), 1, "{:?}", all);
    all[0].clone().unwrap()
}

#[test]
fn two_character_operators() {
    let cases = [
        ("==", TokenType::Equals),
        ("!=", TokenType::NotEquals),
        ("<=", TokenType::LessThanEquals),
        (">=", TokenType::GreaterThanEquals),
        ("&&", TokenType::And),
        ("||", TokenType::Or),
    ];
    for (text, kind) in cases {
        assert_eq!(only_token(text), (kind, text.to_string(), 0));
    }
}

#[test]
fn single_character_operators() {
    assert_eq!(only_token("<"), (TokenType::LessThan, "<".to_string(), 0));
    assert_eq!(only_token(">"), (TokenType::GreaterThan, ">".to_string(), 0));
    assert_eq!(only_token("!"), (TokenType::Bang, "!".to_string(), 0));
    let all = scan("< a");
    assert_eq!(all[0], Ok((TokenType::LessThan, "<".to_string(), 0)));
    assert_eq!(all[1], Ok((TokenType::Identifier, "a".to_string(), 2)));
}

#[test]
fn punctuation() {
    let all = scan("( ) ^ .");
    assert_eq!(
        all,
        vec![
            Ok((TokenType::OpenParen, "(".to_string(), 0)),
            Ok((TokenType::CloseParen, ")".to_string(), 2)),
            Ok((TokenType::Xor, "^".to_string(), 4)),
            Ok((TokenType::Dot, ".".to_string(), 6)),
        ]
    );
}

#[test]
fn bare_and_or_equals_fail() {
    assert_eq!(scan("&"), vec![Err(LexError::InvalidAnd { pos: 0 })]);
    assert_eq!(scan("|"), vec![Err(LexError::InvalidOr { pos: 0 })]);
    assert_eq!(scan("="), vec![Err(LexError::InvalidEquals { pos: 0 })]);
    assert_eq!(scan("a & b")[1], Err(LexError::InvalidAnd { pos: 2 }));
    assert_eq!(scan("x |y")[1], Err(LexError::InvalidOr { pos: 2 }));
    assert_eq!(scan("  =1")[0], Err(LexError::InvalidEquals { pos: 2 }));
}

#[test]
fn identifiers() {
    assert_eq!(
        scan("_foo123 bar"),
        vec![
            Ok((TokenType::Identifier, "_foo123".to_string(), 0)),
            Ok((TokenType::Identifier, "bar".to_string(), 8)),
        ]
    );
}

#[test]
fn dotted_identifier() {
    assert_eq!(
        scan("a.b"),
        vec![
            Ok((TokenType::Identifier, "a".to_string(), 0)),
            Ok((TokenType::Dot, ".".to_string(), 1)),
            Ok((TokenType::Identifier, "b".to_string(), 2)),
        ]
    );
}

#[test]
fn numbers() {
    assert_eq!(only_token(".025"), (TokenType::Number, ".025".to_string(), 0));
    assert_eq!(
        scan("12.5.6"),
        vec![
            Ok((TokenType::Number, "12.5".to_string(), 0)),
            Ok((TokenType::Number, ".6".to_string(), 4)),
        ]
    );
    assert_eq!(
        scan("12.5 .x"),
        vec![
            Ok((TokenType::Number, "12.5".to_string(), 0)),
            Ok((TokenType::Dot, ".".to_string(), 5)),
            Ok((TokenType::Identifier, "x".to_string(), 6)),
        ]
    );
    assert_eq!(
        scan("1..2"),
        vec![
            Ok((TokenType::Number, "1.".to_string(), 0)),
            Ok((TokenType::Number, ".2".to_string(), 2)),
        ]
    );
}

#[test]
fn strings() {
    let mut lexer = Lexer::new("\"a\\\"b\"");
    let t = lexer.next().unwrap().unwrap();
    assert_eq!(t.ttype, TokenType::String);
    assert_eq!(t.sequence, "\"a\\\"b\"");
    assert_eq!(t.pos, 0);
    assert_eq!(t.as_str(), "a\"b");
    assert!(lexer.next().is_none());
    assert_eq!(scan("\"unterminated"), vec![Err(LexError::UnterminatedString { pos: 0 })]);
    assert_eq!(scan("x \"ab\\"), vec![
        Ok((TokenType::Identifier, "x".to_string(), 0)),
        Err(LexError::UnterminatedString { pos: 2 }),
    ]);
}

#[test]
fn string_escape_decoding() {
    let decode = |src: &str| {
        let mut lexer = Lexer::new(src);
        lexer.next().unwrap().unwrap().as_str()
    };
    assert_eq!(decode("\"a\\\\b\""), "a\\b");
    assert_eq!(decode("\"a\\nb\""), "a\\nb");
    assert_eq!(decode("\"\""), "");
    assert_eq!(decode("\"x y\""), "x y");
    let t = Token { ttype: TokenType::String, sequence: "\"ab\\\"", pos: 0 };
    assert_eq!(t.as_str(), "ab\\");
    let t = Token { ttype: TokenType::Identifier, sequence: "abc", pos: 0 };
    assert_eq!(t.as_str(), "abc");
}

#[test]
fn unexpected_character() {
    assert_eq!(
        scan("a # b"),
        vec![
            Ok((TokenType::Identifier, "a".to_string(), 0)),
            Err(LexError::UnexpectedChar { pos: 2, ch: '#' }),
            Ok((TokenType::Identifier, "b".to_string(), 4)),
        ]
    );
    assert_eq!(scan("é"), vec![Err(LexError::UnexpectedChar { pos: 0, ch: 'é' })]);
}

#[test]
fn positions_count_characters() {
    let all = scan("\"é\" ab");
    assert_eq!(all[0], Ok((TokenType::String, "\"é\"".to_string(), 0)));
    assert_eq!(all[1], Ok((TokenType::Identifier, "ab".to_string(), 4)));
}

#[test]
fn rescanning_is_identical() {
    let src = "(a.b >= 1.5) && !(name == \"x\\\"y\") || c ^ d & e";
    assert_eq!(scan(src), scan(src));
}

#[test]
fn tokens_round_trip() {
    let src = "(a.b >= 1.5) && !(name == \"x\\\"y\") || .5 < 12.5.6 != _z9";
    let mut lexer = Lexer::new(src);
    let mut count = 0;
    while let Some(r) = lexer.next() {
        let t = r.unwrap();
        let again = scan(t.sequence);
        assert_eq!(again, vec![Ok((t.ttype, t.sequence.to_string(), 0))]);
        count += 1;
    }
    assert_eq!(count, 21);
}

#[test]
fn end_of_stream_is_stable() {
    let mut lexer = Lexer::new("a \"oops");
    assert!(lexer.next().unwrap().is_ok());
    assert!(lexer.next().unwrap().is_err());
    for _ in 0..5 {
        assert!(lexer.next().is_none());
    }
    let mut empty = Lexer::new("   ");
    assert!(empty.next().is_none());
    assert!(empty.next().is_none());
}

#[test]
fn cursor_helpers() {
    let mut lexer = Lexer::new(" \tab");
    assert_eq!(lexer.peek(), ' ');
    lexer.skip_whitespace();
    assert_eq!(lexer.peek(), 'a');
    assert_eq!(lexer.next_char(), 'a');
    assert_eq!(lexer.next_char(), 'b');
    assert_eq!(lexer.next_char(), '\0');
    assert_eq!(lexer.peek(), '\0');
    let t = Token::from(&lexer, TokenType::Identifier, 3, 4);
    assert_eq!((t.sequence, t.pos), ("ab", 2));
    let t = Token::from_char(&lexer, TokenType::Identifier, 4);
    assert_eq!((t.sequence, t.pos), ("b", 3));
}

#[test]
fn display_text_of_tokens() {
    let mut lexer = Lexer::new("name \"a\\\"b\"");
    assert_eq!(lexer.next().unwrap().unwrap().display_text(), "name");
    assert_eq!(lexer.next().unwrap().unwrap().display_text(), "\"a\"b\"");
}
