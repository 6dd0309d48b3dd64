// The tokenizer: kinds, texts and spans of tokens, and lexical errors.

use bcc::error::{ErrorKind, Span};
use bcc::lexer::TokenType as T;
use bcc::lexer::{Lexer, Token, TokenType};

fn scan(source: &str) -> Vec<Token> {
    Lexer::new(source.to_string()).scan_tokens().expect("the source has tokens")
}

fn kinds(source: &str) -> Vec<TokenType> {
    scan(source).iter().map(|t| t.token_type).collect()
}

fn spans(source: &str) -> Vec<(usize, usize)> {
    scan(source).iter().map(|t| (t.span.start, t.span.end)).collect()
}

fn lexemes(source: &str) -> Vec<String> {
    scan(source).iter().map(|t| t.lexeme.clone()).collect()
}

#[test]
fn the_empty_source_has_the_end_token_only() {
    let tokens = scan("");
    assert_eq!(tokens.len(), 1);
    assert_eq!(tokens[0].token_type, TokenType::Eof);
    assert_eq!(tokens[0].lexeme, "");
    assert_eq!(tokens[0].span, Span::new(0, 1));
    assert_eq!(spans("  \t\r\n"), vec![(5, 6)]);
}

#[test]
fn punctuation_maps_to_its_kind() {
    assert_eq!(
        kinds("( ) { } [ ] , : . - + ; / *"),
        vec![
            T::LeftParen, T::RightParen, T::LeftBrace, T::RightBrace, T::LeftBracket, T::RightBracket, T::Comma,
            T::Colon, T::Dot, T::Minus, T::Plus, T::Semicolon, T::Slash, T::Star, T::Eof
        ]
    );
}

#[test]
fn operators_merge_with_an_equals_sign() {
    assert_eq!(
        kinds("! != = == < <= > >="),
        vec![T::Bang, T::BangEqual, T::Equal, T::EqualEqual, T::Less, T::LessEqual, T::Greater, T::GreaterEqual, T::Eof]
    );
    assert_eq!(kinds("==="), vec![T::EqualEqual, T::Equal, T::Eof]);
    assert_eq!(kinds("!==<=>"), vec![T::BangEqual, T::Equal, T::LessEqual, T::Greater, T::Eof]);
    assert_eq!(lexemes("a<=b"), vec!["a", "<=", "b", ""]);
    assert_eq!(spans("a<=b"), vec![(0, 1), (1, 3), (3, 4), (4, 5)]);
}

#[test]
fn keywords_are_exact_matches() {
    assert_eq!(
        kinds("and else false for fun if in nil not or return true while"),
        vec![T::And, T::Else, T::False, T::For, T::Fun, T::If, T::In, T::Nil, T::Not, T::Or, T::Return, T::True, T::While, T::Eof]
    );
    assert_eq!(
        kinds("And android _if if_ iff nil0 True"),
        vec![T::Identifier, T::Identifier, T::Identifier, T::Identifier, T::Identifier, T::Identifier, T::Identifier, T::Eof]
    );
}

#[test]
fn identifiers_take_letters_digits_and_underscores() {
    assert_eq!(lexemes("_a1 b_2 größe x9y"), vec!["_a1", "b_2", "größe", "x9y", ""]);
    assert_eq!(kinds("_a1 b_2 größe x9y"), vec![T::Identifier, T::Identifier, T::Identifier, T::Identifier, T::Eof]);
    // A letter of two bytes, then a digit that is not ASCII and so takes
    // part in the word but cannot begin a number.
    assert_eq!(lexemes("é٣ x"), vec!["é٣", "x", ""]);
    assert_eq!(spans("é٣ x"), vec![(0, 4), (5, 6), (6, 7)]);
    assert_eq!(kinds("a-b"), vec![T::Identifier, T::Minus, T::Identifier, T::Eof]);
}

#[test]
fn numbers_are_integers_or_doubles() {
    assert_eq!(kinds("0 42 3.14 007"), vec![T::Integer, T::Integer, T::Double, T::Integer, T::Eof]);
    assert_eq!(lexemes("0 42 3.14 007"), vec!["0", "42", "3.14", "007", ""]);
    // A point counts only before a digit.
    assert_eq!(kinds("42."), vec![T::Integer, T::Dot, T::Eof]);
    assert_eq!(kinds("42.x"), vec![T::Integer, T::Dot, T::Identifier, T::Eof]);
    assert_eq!(kinds("3.14.159"), vec![T::Double, T::Dot, T::Integer, T::Eof]);
    assert_eq!(lexemes("3.14.159"), vec!["3.14", ".", "159", ""]);
    assert_eq!(kinds(".5"), vec![T::Dot, T::Integer, T::Eof]);
    assert_eq!(kinds("1.5e3"), vec![T::Double, T::Identifier, T::Eof]);
    assert_eq!(spans("12.50+1"), vec![(0, 5), (5, 6), (6, 7), (7, 8)]);
}

#[test]
fn an_integer_has_to_fit_64_bits() {
    assert_eq!(lexemes("9223372036854775807"), vec!["9223372036854775807", ""]);
    assert_eq!(lexemes("0009223372036854775807"), vec!["0009223372036854775807", ""]);
    let error = Lexer::new("x = 9223372036854775808;".to_string()).scan_tokens().unwrap_err();
    assert_eq!(error.kind, ErrorKind::LexError);
    assert_eq!(error.message, "Invalid integer: 9223372036854775808");
    assert_eq!(error.span, Span::new(4, 23));
    assert_eq!(error.help, None);
    let error = Lexer::new("99999999999999999999999999".to_string()).scan_tokens().unwrap_err();
    assert_eq!(error.message, "Invalid integer: 99999999999999999999999999");
    // A double of any size is taken.
    assert_eq!(
        kinds("99999999999999999999999999.5"),
        vec![TokenType::Double, TokenType::Eof]
    );
}

#[test]
fn strings_keep_their_text_as_it_is() {
    let tokens = scan("\"a b\\n\" \"\" \"über\"");
    assert_eq!(tokens[0].token_type, TokenType::String);
    assert_eq!(tokens[0].lexeme, "a b\\n");
    assert_eq!(tokens[0].span, Span::new(0, 7));
    assert_eq!(tokens[1].lexeme, "");
    assert_eq!(tokens[1].span, Span::new(8, 10));
    assert_eq!(tokens[2].lexeme, "über");
    assert_eq!(tokens[2].span, Span::new(11, 18));
    assert_eq!(tokens[3].span, Span::new(18, 19));
    assert_eq!(lexemes("\"two\nlines\""), vec!["two\nlines", ""]);
}

#[test]
fn an_unterminated_string_is_an_error() {
    let error = Lexer::new("x = \"hello".to_string()).scan_tokens().unwrap_err();
    assert_eq!(error.kind, ErrorKind::LexError);
    assert_eq!(error.message, "Unterminated string");
    assert_eq!(error.span, Span::new(4, 10));
    let error = Lexer::new("\"".to_string()).scan_tokens().unwrap_err();
    assert_eq!(error.span, Span::new(0, 1));
    let error = Lexer::new("\"héllo\nworld".to_string()).scan_tokens().unwrap_err();
    assert_eq!(error.span, Span::new(0, 13));
}

#[test]
fn an_unexpected_character_is_an_error() {
    let error = Lexer::new("a @ b".to_string()).scan_tokens().unwrap_err();
    assert_eq!(error.kind, ErrorKind::LexError);
    assert_eq!(error.message, "Unexpected character: '@'");
    assert_eq!(error.span, Span::new(2, 3));
    assert_eq!(error.to_string(), "Unexpected character: '@'");
    // The position is the last byte of the character.
    let error = Lexer::new("a €".to_string()).scan_tokens().unwrap_err();
    assert_eq!(error.message, "Unexpected character: '€'");
    assert_eq!(error.span, Span::new(4, 5));
    let error = Lexer::new("#".to_string()).scan_tokens().unwrap_err();
    assert_eq!(error.message, "Unexpected character: '#'");
    // A digit that is not ASCII cannot begin a token.
    let error = Lexer::new("٣".to_string()).scan_tokens().unwrap_err();
    assert_eq!(error.message, "Unexpected character: '٣'");
}

#[test]
fn comments_run_to_the_end_of_the_line() {
    assert_eq!(kinds("1 // two\n3"), vec![T::Integer, T::Integer, T::Eof]);
    assert_eq!(kinds("// only"), vec![T::Eof]);
    assert_eq!(kinds("a / b // c / d"), vec![T::Identifier, T::Slash, T::Identifier, T::Eof]);
    assert_eq!(spans("// é\nx"), vec![(6, 7), (7, 8)]);
    assert_eq!(kinds("\"// no comment\""), vec![T::String, T::Eof]);
}

#[test]
fn spans_are_byte_offsets() {
    assert_eq!(spans("x = \"ä€😀\" y"), vec![(0, 1), (2, 3), (4, 15), (16, 17), (17, 18)]);
    assert_eq!(spans("äb=1"), vec![(0, 3), (3, 4), (4, 5), (5, 6)]);
}

#[test]
fn scanning_again_gives_the_same_tokens() {
    let mut lexer = Lexer::new("a + 1".to_string());
    let first = lexer.scan_tokens().unwrap();
    let second = lexer.scan_tokens().unwrap();
    assert_eq!(first.len(), 4);
    assert_eq!(second.len(), 4);
    for (a, b) in first.iter().zip(second.iter()) {
        assert_eq!(a.token_type, b.token_type);
        assert_eq!(a.lexeme, b.lexeme);
        assert_eq!(a.span, b.span);
    }
}

const SOURCES: [&str; 8] = [
    "",
    "x = (1 + 2.5) * foo(\"a b\", [1, 2]) // done",
    "if (a != b and not c) { print(a <= b, a >= b, a == b) } else { a = !b }",
    "while (i < 10) { i = i + 1; }\nfor (;;) {}",
    "d = {\"k\": nil, \"größe\": true}.x / -3.25 - 007",
    "über_1 in liste or falsch",
    "a<b>c<=d>=e==f!=g=h!i",
    "return fun 1.5.x 2.y",
];

#[test]
fn a_scan_ends_with_the_end_token_or_fails() {
    for source in SOURCES {
        let tokens = scan(source);
        assert_eq!(tokens.last().unwrap().token_type, TokenType::Eof, "{}", source);
        let end = source.len();
        assert_eq!(tokens.last().unwrap().span, Span::new(end, end + 1));
        for token in &tokens[..tokens.len() - 1] {
            assert_ne!(token.token_type, TokenType::Eof);
            assert!(token.span.start < token.span.end && token.span.end <= end);
        }
    }
    for source in ["\"open", "a ? b", "1 $", "99999999999999999999"] {
        let error = Lexer::new(source.to_string()).scan_tokens().unwrap_err();
        assert_eq!(error.kind, ErrorKind::LexError, "{}", source);
    }
}

#[test]
fn the_text_of_a_token_scans_to_one_token_of_its_kind() {
    for source in SOURCES {
        for token in scan(source) {
            if token.token_type == TokenType::Eof {
                continue;
            }
            let slice = &source[token.span.start..token.span.end];
            let again = scan(slice);
            assert_eq!(again.len(), 2, "{:?} of {:?}", slice, source);
            assert_eq!(again[0].token_type, token.token_type, "{:?}", slice);
            assert_eq!(again[0].lexeme, token.lexeme);
            assert_eq!(again[0].span, Span::new(0, slice.len()));
            assert_eq!(again[1].token_type, TokenType::Eof);
        }
    }
}
