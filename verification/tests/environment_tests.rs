// Scopes, error records and values on their own.

use bcc::environment::{find, insert, Environment};
use bcc::error::{BccError, ErrorKind, Span};
use bcc::host::Piece;
use bcc::lexer::fits;
use bcc::text::{contains, equal, i64_to_string, u64_to_string, usize_to_string};
use bcc::value::{clone_values, CaseResult, DictEntry, Double, Value};

fn text(s: &str) -> Value {
    Value::String(s.to_string())
}

#[test]
fn a_new_environment_binds_nothing() {
    let env = Environment::new();
    assert_eq!(env.depth(), 1);
    assert_eq!(env.get("x"), None);
}

#[test]
fn an_assignment_is_read_back() {
    let mut env = Environment::new();
    assert_eq!(env.assign("x", Value::Int(1)), Ok(()));
    assert_eq!(env.assign("y", text("two")), Ok(()));
    assert_eq!(env.get("x"), Some(Value::Int(1)));
    assert_eq!(env.get("y"), Some(text("two")));
    assert_eq!(env.assign("x", Value::Int(3)), Ok(()));
    assert_eq!(env.get("x"), Some(Value::Int(3)));
    assert_eq!(env.get("y"), Some(text("two")));
    assert_eq!(env.get("X"), None);
    assert_eq!(env.depth(), 1);
}

#[test]
fn an_assignment_goes_to_the_scope_that_binds_the_name() {
    let mut outer = Environment::new();
    outer.assign("x", Value::Int(1)).unwrap();
    let mut env = Environment::with_enclosing(outer);
    assert_eq!(env.depth(), 2);
    // Found in the enclosing scope.
    assert_eq!(env.get("x"), Some(Value::Int(1)));
    // An existing name is changed where it is bound.
    env.assign("x", Value::Int(2)).unwrap();
    // A new name is bound in the innermost scope.
    env.assign("y", Value::Int(3)).unwrap();
    assert_eq!(env.get("x"), Some(Value::Int(2)));
    assert_eq!(env.get("y"), Some(Value::Int(3)));
    env.pop_scope();
    assert_eq!(env.depth(), 1);
    assert_eq!(env.get("x"), Some(Value::Int(2)));
    assert_eq!(env.get("y"), None);
    // The outermost scope stays.
    env.pop_scope();
    assert_eq!(env.depth(), 1);
    assert_eq!(env.get("x"), Some(Value::Int(2)));
}

#[test]
fn the_innermost_binding_of_a_name_is_found() {
    let mut env = Environment::new();
    env.push_scope();
    env.assign("x", Value::Int(1)).unwrap();
    env.pop_scope();
    env.assign("x", Value::Int(2)).unwrap();
    env.push_scope();
    env.push_scope();
    assert_eq!(env.depth(), 3);
    assert_eq!(env.get("x"), Some(Value::Int(2)));
    env.assign("x", Value::Int(5)).unwrap();
    env.pop_scope();
    env.pop_scope();
    assert_eq!(env.get("x"), Some(Value::Int(5)));
}

#[test]
fn entries_keep_the_order_of_their_first_insertion() {
    let mut entries: Vec<DictEntry> = Vec::new();
    insert(&mut entries, "b".to_string(), Value::Int(1));
    insert(&mut entries, "a".to_string(), Value::Int(2));
    insert(&mut entries, "b".to_string(), Value::Int(3));
    assert_eq!(
        entries,
        vec![
            DictEntry { key: "b".to_string(), value: Value::Int(3) },
            DictEntry { key: "a".to_string(), value: Value::Int(2) },
        ]
    );
    assert_eq!(find(&entries, "a"), Some(1));
    assert_eq!(find(&entries, "b"), Some(0));
    assert_eq!(find(&entries, "c"), None);
    assert_eq!(find(&entries, ""), None);
}

#[test]
fn spans_are_made_as_given() {
    assert_eq!(Span::new(3, 7), Span { start: 3, end: 7 });
    assert_eq!(Span::single(3), Span { start: 3, end: 4 });
    assert_eq!(Span::single(0), Span { start: 0, end: 1 });
}

#[test]
fn error_records_hold_kind_span_message_and_help() {
    let span = Span::new(1, 2);
    let e = BccError::new(ErrorKind::ParseError, span, "m".to_string());
    assert_eq!((e.kind, e.span, e.message.as_str(), e.help), (ErrorKind::ParseError, span, "m", None));
    let e = BccError::new_with_help(ErrorKind::LexError, span, "m".to_string(), "h".to_string());
    assert_eq!(e.kind, ErrorKind::LexError);
    assert_eq!(e.help.as_deref(), Some("h"));
    assert_eq!(BccError::lex_error(span, "m".to_string()).kind, ErrorKind::LexError);
    assert_eq!(BccError::parse_error(span, "m".to_string()).kind, ErrorKind::ParseError);
    assert_eq!(BccError::runtime_error(span, "m".to_string()).kind, ErrorKind::RuntimeError);
    let e = BccError::parse_error_with_help(span, "m".to_string(), "h".to_string());
    assert_eq!((e.kind, e.help.as_deref()), (ErrorKind::ParseError, Some("h")));
    let e = BccError::runtime_error_with_help(span, "msg".to_string(), "h".to_string());
    assert_eq!((e.kind, e.help.as_deref()), (ErrorKind::RuntimeError, Some("h")));
    assert_eq!(e.to_string(), "msg");
    assert_eq!(e.span, span);
}

#[test]
fn truthiness_of_values() {
    let zero = Double::from_bits(0);
    let negative_zero = Double::from_bits(0x8000_0000_0000_0000);
    let one = Double::from_bits(0x3ff0_0000_0000_0000);
    let not_a_number = Double::from_bits(0x7ff8_0000_0000_0000);
    assert!(zero.is_zero() && negative_zero.is_zero());
    assert!(!one.is_zero() && !not_a_number.is_zero());
    assert_eq!(one.to_bits(), 0x3ff0_0000_0000_0000);
    assert!(!Value::Nil.is_truthy());
    assert!(!Value::Bool(false).is_truthy() && Value::Bool(true).is_truthy());
    assert!(!Value::Int(0).is_truthy() && Value::Int(-1).is_truthy());
    assert!(!Value::Double(zero).is_truthy() && !Value::Double(negative_zero).is_truthy());
    assert!(Value::Double(one).is_truthy() && Value::Double(not_a_number).is_truthy());
    assert!(!text("").is_truthy() && text(" ").is_truthy());
    assert!(!Value::List(vec![]).is_truthy() && Value::List(vec![Value::Nil]).is_truthy());
    assert!(!Value::Tuple(vec![]).is_truthy() && Value::Tuple(vec![Value::Nil]).is_truthy());
    assert!(!Value::Dict(vec![]).is_truthy());
    assert!(Value::Dict(vec![DictEntry { key: String::new(), value: Value::Nil }]).is_truthy());
    let wrap = |v| Value::CaseResult(CaseResult { result: Box::new(v) });
    assert!(!wrap(Value::Int(0)).is_truthy() && wrap(Value::Int(1)).is_truthy());
    assert!(!wrap(wrap(Value::Nil)).is_truthy());
}

#[test]
fn kinds_of_values_have_names() {
    assert_eq!(Value::Nil.kind_name(), "nil");
    assert_eq!(Value::Bool(true).kind_name(), "bool");
    assert_eq!(Value::Int(1).kind_name(), "int");
    assert_eq!(Value::Double(Double::from_bits(0)).kind_name(), "double");
    assert_eq!(text("").kind_name(), "string");
    assert_eq!(Value::List(vec![]).kind_name(), "list");
    assert_eq!(Value::Dict(vec![]).kind_name(), "dict");
    assert_eq!(Value::Tuple(vec![]).kind_name(), "tuple");
    assert_eq!(Value::CaseResult(CaseResult { result: Box::new(Value::Nil) }).kind_name(), "case_result");
}

#[test]
fn a_copy_of_a_value_equals_it() {
    let value = Value::List(vec![
        Value::Int(1),
        text("a"),
        Value::Dict(vec![DictEntry { key: "k".to_string(), value: Value::Tuple(vec![Value::Nil]) }]),
        Value::CaseResult(CaseResult { result: Box::new(Value::Double(Double::from_bits(7))) }),
    ]);
    assert_eq!(value.clone(), value);
    let items = vec![Value::Int(1), Value::Bool(true)];
    assert_eq!(clone_values(&items), items);
}

#[test]
fn a_value_is_rendered_in_pieces() {
    let half = Double::from_bits(0x3fe0_0000_0000_0000);
    let value = Value::List(vec![Value::Int(-3), Value::Double(half), text("x")]);
    let pieces = value.render();
    let shown: Vec<String> = pieces
        .iter()
        .map(|p| match p {
            Piece::Text(t) => t.clone(),
            Piece::Double(d) => format!("<{:x}>", d.bits),
        })
        .collect();
    assert_eq!(shown, vec!["[", "-3", ", ", "<3fe0000000000000>", ", ", "x", "]"]);
}

#[test]
fn numbers_are_written_in_decimal() {
    assert_eq!(u64_to_string(0), "0");
    assert_eq!(u64_to_string(7), "7");
    assert_eq!(u64_to_string(10), "10");
    assert_eq!(u64_to_string(1234567890), "1234567890");
    assert_eq!(u64_to_string(u64::MAX), "18446744073709551615");
    assert_eq!(usize_to_string(405), "405");
    assert_eq!(i64_to_string(0), "0");
    assert_eq!(i64_to_string(-1), "-1");
    assert_eq!(i64_to_string(i64::MAX), "9223372036854775807");
    assert_eq!(i64_to_string(i64::MIN), "-9223372036854775808");
}

#[test]
fn texts_are_compared_and_searched() {
    assert!(equal("", ""));
    assert!(equal("größe", "größe"));
    assert!(!equal("a", "b") && !equal("a", "ab") && !equal("ab", "a") && !equal("", "a"));
    assert!(contains("hello", "") && contains("", ""));
    assert!(contains("hello", "h") && contains("hello", "lo") && contains("hello", "hello"));
    assert!(!contains("hello", "hello!") && !contains("", "a") && !contains("hello", "lol"));
    assert!(contains("aab", "ab") && contains("größe", "öß") && !contains("größe", "oß"));
}

#[test]
fn every_text_fits() {
    assert!(fits(""));
    assert!(fits("x = 1"));
    assert!(fits(&"ä".repeat(10_000)));
}
