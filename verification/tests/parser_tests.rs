// The parser: the trees it builds and the errors it reports.

use bcc::ast::{AssignTarget, BinaryOp, Expr, LogicalOp, Program, Stmt, UnaryOp};
use bcc::error::{BccError, ErrorKind, Span};
use bcc::lexer::{Lexer, Token, TokenType};
use bcc::parser::{looks_like_double, parse_integer, Parser};
use bcc::runner::{echoed, run};
use bcc::value::Value;

fn parse(source: &str) -> Program {
    run(source).expect("the source is a program")
}

fn parse_error(source: &str) -> BccError {
    match run(source) {
        Err(e) => e,
        Ok(program) => panic!("expected an error, got {:?}", program),
    }
}

/// The expression of a source that is one expression statement.
fn expression(source: &str) -> Expr {
    let mut program = parse(source);
    assert_eq!(program.statements.len(), 1, "{}", source);
    match program.statements.remove(0) {
        Stmt::Expression { expr, .. } => expr,
        other => panic!("not an expression: {:?}", other),
    }
}

/// The expression in prefix form, without spans.
fn shape(e: &Expr) -> String {
    match e {
        Expr::Literal { value, .. } => match value {
            Value::Nil => "nil".to_string(),
            Value::Bool(b) => b.to_string(),
            Value::Int(n) => n.to_string(),
            Value::String(s) => format!("{:?}", s),
            other => format!("{:?}", other),
        },
        Expr::DoubleLiteral { text, .. } => text.clone(),
        Expr::Variable { name, .. } => name.clone(),
        Expr::Assign { name, value, .. } => format!("(= {} {})", name, shape(value)),
        Expr::MultiAssign { targets, value, .. } => {
            let names: Vec<String> = targets
                .iter()
                .map(|t| match t {
                    AssignTarget::Variable { name, .. } => name.clone(),
                    AssignTarget::Ignore { .. } => "_".to_string(),
                })
                .collect();
            format!("(= [{}] {})", names.join(" "), shape(value))
        }
        Expr::Binary { left, operator, right, .. } => {
            format!("({:?} {} {})", operator, shape(left), shape(right))
        }
        Expr::Unary { operator, operand, .. } => format!("({:?} {})", operator, shape(operand)),
        Expr::Logical { left, operator, right, .. } => {
            format!("({:?} {} {})", operator, shape(left), shape(right))
        }
        Expr::Call { callee, args, .. } => format!("(call {}{})", shape(callee), shapes(args)),
        Expr::CallWithKwargs { callee, positional_args, keyword_args, .. } => {
            let keywords: Vec<String> =
                keyword_args.iter().map(|k| format!(" {}={}", k.name, shape(&k.value))).collect();
            format!("(call {}{}{})", shape(callee), shapes(positional_args), keywords.concat())
        }
        Expr::MultiReturn { values, .. } => format!("(return{})", shapes(values)),
        Expr::Grouping { expr, .. } => format!("(group {})", shape(expr)),
        Expr::List { elements, .. } => format!("(list{})", shapes(elements)),
        Expr::Dict { pairs, .. } => {
            let entries: Vec<String> =
                pairs.iter().map(|(k, v)| format!(" {}:{}", shape(k), shape(v))).collect();
            format!("(dict{})", entries.concat())
        }
        Expr::PropertyAccess { object, property, .. } => format!("(. {} {})", shape(object), property),
        Expr::Tuple { elements, .. } => format!("(tuple{})", shapes(elements)),
    }
}

fn shapes(exprs: &[Expr]) -> String {
    exprs.iter().map(|e| format!(" {}", shape(e))).collect::<Vec<_>>().concat()
}

fn parsed(source: &str) -> String {
    shape(&expression(source))
}

#[test]
fn operators_group_by_precedence() {
    assert_eq!(parsed("1 + 2 * 3"), "(Add 1 (Multiply 2 3))");
    assert_eq!(parsed("1 * 2 + 3"), "(Add (Multiply 1 2) 3)");
    assert_eq!(parsed("1 + 2 < 3 * 4"), "(Less (Add 1 2) (Multiply 3 4))");
    assert_eq!(parsed("1 < 2 == 3 > 4"), "(Equal (Less 1 2) (Greater 3 4))");
    assert_eq!(parsed("a == b and c != d"), "(And (Equal a b) (NotEqual c d))");
    assert_eq!(parsed("a or b and c"), "(Or a (And b c))");
    assert_eq!(parsed("a and b or c"), "(Or (And a b) c)");
    assert_eq!(parsed("x = a or b"), "(= x (Or a b))");
    assert_eq!(parsed("-a * b"), "(Multiply (Negate a) b)");
    assert_eq!(parsed("-a.b"), "(Negate (. a b))");
    assert_eq!(parsed("a in b + c"), "(In a (Add b c))");
    assert_eq!(parsed("a in b == c"), "(Equal (In a b) c)");
    assert_eq!(parsed("a <= b >= c"), "(GreaterEqual (LessEqual a b) c)");
}

#[test]
fn binary_operators_group_to_the_left() {
    assert_eq!(parsed("1 - 2 - 3"), "(Subtract (Subtract 1 2) 3)");
    assert_eq!(parsed("8 / 4 / 2"), "(Divide (Divide 8 4) 2)");
    assert_eq!(parsed("a or b or c"), "(Or (Or a b) c)");
    assert_eq!(parsed("a and b and c"), "(And (And a b) c)");
    assert_eq!(parsed("a == b != c"), "(NotEqual (Equal a b) c)");
}

#[test]
fn assignment_and_prefix_operators_group_to_the_right() {
    assert_eq!(parsed("a = b = 1"), "(= a (= b 1))");
    assert_eq!(parsed("!!a"), "(Not (Not a))");
    assert_eq!(parsed("not -a"), "(Not (Negate a))");
    assert_eq!(parsed("1 -- 2"), "(Subtract 1 (Negate 2))");
    assert_eq!(parsed("1 +- 2"), "(Add 1 (Negate 2))");
}

#[test]
fn literals_map_to_values() {
    assert_eq!(parsed("true"), "true");
    assert_eq!(parsed("false"), "false");
    assert_eq!(parsed("nil"), "nil");
    assert_eq!(parsed("42"), "42");
    assert_eq!(parsed("\"hi\""), "\"hi\"");
    assert_eq!(parsed("3.14"), "3.14");
    assert_eq!(parsed("9223372036854775807"), "9223372036854775807");
    assert!(matches!(expression("3.50"), Expr::DoubleLiteral { text, .. } if text == "3.50"));
}

#[test]
fn calls_and_properties_chain() {
    assert_eq!(parsed("foo()"), "(call foo)");
    assert_eq!(parsed("foo(1, 2, 3)"), "(call foo 1 2 3)");
    assert_eq!(parsed("f(1)(2).x.y(3)"), "(call (. (. (call (call f 1) 2) x) y) 3)");
    assert_eq!(parsed("f(a = 1)"), "(call f a=1)");
    assert_eq!(parsed("f(1, x, a = 1, b = g(c = 2))"), "(call f 1 x a=1 b=(call g c=2))");
    assert_eq!(parsed("f(a == 1)"), "(call f (Equal a 1))");
    assert_eq!(parsed("f(a)"), "(call f a)");
    assert_eq!(parsed("f((a = 1))"), "(call f (group (= a 1)))");
    assert_eq!(parsed("(f)(1)"), "(call (group f) 1)");
}

#[test]
fn lists_and_dictionaries_hold_expressions() {
    assert_eq!(parsed("[]"), "(list)");
    assert_eq!(parsed("[1, [2, 3], a + b]"), "(list 1 (list 2 3) (Add a b))");
    assert_eq!(parsed("x = {}"), "(= x (dict))");
    assert_eq!(parsed("x = {\"a\": 1, b: [2]}"), "(= x (dict \"a\":1 b:(list 2)))");
    assert_eq!(parsed("[{\"a\": {\"b\": 1}}]"), "(list (dict \"a\":(dict \"b\":1)))");
}

#[test]
fn spans_cover_what_was_parsed() {
    let e = expression("  1 + 22 * x ");
    assert_eq!(e.span(), Span::new(2, 12));
    match e {
        Expr::Binary { left, right, operator, .. } => {
            assert_eq!(operator, BinaryOp::Add);
            assert_eq!(left.span(), Span::new(2, 3));
            assert_eq!(right.span(), Span::new(6, 12));
        }
        other => panic!("{:?}", other),
    }
    assert_eq!(expression("(1)").span(), Span::new(0, 3));
    assert_eq!(expression("-x").span(), Span::new(0, 2));
    assert_eq!(expression("f(1, 2)").span(), Span::new(0, 7));
    assert_eq!(expression("a.bc").span(), Span::new(0, 4));
    assert_eq!(expression("[1, 2]").span(), Span::new(0, 6));
    assert_eq!(expression("x = {\"a\": 1}").span(), Span::new(0, 12));
    assert_eq!(expression("a or b").span(), Span::new(0, 6));
    assert_eq!(expression("x = 10").span(), Span::new(0, 6));
    let program = parse("x = 1; y");
    assert_eq!(program.statements[0].span(), Span::new(0, 6));
    assert_eq!(program.statements[1].span(), Span::new(7, 8));
    let program = parse("if (a) b else { c }");
    assert_eq!(program.statements[0].span(), Span::new(0, 19));
    let program = parse("while (a) b;");
    assert_eq!(program.statements[0].span(), Span::new(0, 12));
    let program = parse("for (;;) { }");
    assert_eq!(program.statements[0].span(), Span::new(0, 12));
}

#[test]
fn a_brace_opens_a_block_or_a_dictionary() {
    let program = parse("{ x = 1 }");
    assert!(matches!(&program.statements[0], Stmt::Block { statements, .. } if statements.len() == 1));
    let program = parse("{ \"x\": 1 }");
    assert!(matches!(
        &program.statements[0],
        Stmt::Expression { expr: Expr::Dict { pairs, .. }, .. } if pairs.len() == 1
    ));
    let program = parse("{}");
    assert!(matches!(
        &program.statements[0],
        Stmt::Expression { expr: Expr::Dict { pairs, .. }, .. } if pairs.is_empty()
    ));
    // The first marker outside parentheses and brackets decides.
    let program = parse("{ f(a, b); x }");
    assert!(matches!(&program.statements[0], Stmt::Block { .. }));
    let program = parse("{ f(a, [b]): 3 }");
    assert!(matches!(&program.statements[0], Stmt::Expression { expr: Expr::Dict { .. }, .. }));
    // A colon inside parentheses or brackets does not count.
    assert_eq!(parse_error("{ f(a: 1) }").message, "Expected ')' after arguments");
    assert_eq!(parse_error("{ [a: 1] }").message, "Expected ']' after list elements");
    let program = parse("{ { } }");
    assert!(matches!(
        &program.statements[0],
        Stmt::Block { statements, .. }
            if matches!(&statements[0], Stmt::Expression { expr: Expr::Dict { .. }, .. })
    ));
}

#[test]
fn the_look_ahead_for_a_colon_is_bounded() {
    // The colon is the 20th token after the brace: a dictionary.
    let source = format!("{{ {}a: 1 }}", "-".repeat(18));
    assert!(matches!(
        &parse(&source).statements[0],
        Stmt::Expression { expr: Expr::Dict { .. }, .. }
    ));
    // One token more, and the colon is out of sight: a block, in which
    // the colon is an error.
    let source = format!("{{ {}a: 1 }}", "-".repeat(19));
    assert_eq!(parse_error(&source).message, "Expected expression, found ':'");
}

#[test]
fn statements_nest() {
    let program = parse("if (a) { if (b) c else d } else while (e) { f = 1 }");
    match &program.statements[0] {
        Stmt::If { else_branch: Some(other), then_branch, .. } => {
            assert!(matches!(**then_branch, Stmt::Block { .. }));
            assert!(matches!(**other, Stmt::While { .. }));
        }
        other => panic!("{:?}", other),
    }
    let program = parse("for (i = 0; i < 3; i = i + 1) x");
    match &program.statements[0] {
        Stmt::For { initializer: Some(_), condition: Some(_), increment: Some(_), .. } => {}
        other => panic!("{:?}", other),
    }
    let program = parse("for (;;) x");
    match &program.statements[0] {
        Stmt::For { initializer: None, condition: None, increment: None, .. } => {}
        other => panic!("{:?}", other),
    }
    assert_eq!(parse("a b; c; ").statements.len(), 3);
    // A semicolon ends a statement and begins none.
    assert_eq!(parse_error("a;;").message, "Expected expression, found ';'");
    assert_eq!(parse("").statements.len(), 0);
}

#[test]
fn a_missing_closing_parenthesis_is_reported() {
    let e = parse_error("(1 + 2");
    assert_eq!(e.kind, ErrorKind::ParseError);
    assert!(e.message.contains("Expected ')' after expression"));
    assert_eq!(e.span, Span::new(6, 7));
    assert_eq!(
        e.help.as_deref(),
        Some("Every opening parenthesis '(' must have a matching closing parenthesis ')'.")
    );
    // Not at the end of input, the error is at the offending token.
    let e = parse_error("(1 + 2 ]");
    assert_eq!(e.message, "Expected ')' after expression");
    assert_eq!(e.span, Span::new(7, 8));
}

#[test]
fn empty_parentheses_are_reported() {
    let e = parse_error("()");
    assert!(e.message.contains("Empty parentheses are not allowed"));
    assert_eq!(e.span, Span::new(0, 2));
    assert_eq!(e.kind, ErrorKind::ParseError);
    assert_eq!(parse_error("x = ( )").span, Span::new(4, 7));
}

#[test]
fn nesting_of_any_depth_is_parsed_or_reported() {
    for depth in 1..=120 {
        let balanced = "(".repeat(depth) + "1" + &")".repeat(depth);
        let mut e = expression(&balanced);
        for _ in 0..depth {
            e = match e {
                Expr::Grouping { expr, .. } => *expr,
                other => panic!("{:?}", other),
            };
        }
        assert!(matches!(e, Expr::Literal { value: Value::Int(1), .. }));
        let unmatched = "(".repeat(depth) + "1" + &")".repeat(depth - 1);
        assert!(parse_error(&unmatched).message.contains("Expected ')' after expression"));
    }
}

#[test]
fn a_missing_operand_is_reported_at_the_operator() {
    let e = parse_error("1 + ()");
    assert_eq!(e.message, "Expected expression after '+'");
    assert_eq!(e.span, Span::new(2, 3));
    assert_eq!(
        e.help.as_deref(),
        Some("Arithmetic operators like '+' and '-' require expressions on both sides.")
    );
    assert_eq!(parse_error("1 *").message, "Expected expression after '*'");
    assert_eq!(parse_error("1 == ").message, "Expected expression after '=='");
    assert_eq!(parse_error("1 in ").message, "Expected expression after 'in'");
    assert_eq!(parse_error("a <= )").message, "Expected expression after '<='");
    assert_eq!(parse_error("1 - 2 / ;").message, "Expected expression after '-'");
    // Logical operators and prefix operators pass the error on.
    assert_eq!(parse_error("a and").message, "Unexpected end of input");
    assert_eq!(parse_error("- ]").message, "Expected expression, found ']'");
}

#[test]
fn a_token_that_begins_no_expression_is_reported() {
    let e = parse_error("1 + 2)");
    assert_eq!(e.message, "Expected expression, found ')'");
    assert_eq!(e.span, Span::new(5, 6));
    assert_eq!(
        e.help.as_deref(),
        Some("Found ')' without matching '('. Check for unbalanced parentheses.")
    );
    let e = parse_error("x = 1 }");
    assert_eq!(e.message, "Expected expression, found '}'");
    assert_eq!(e.help.as_deref(), Some("Found '}' without matching '{'. Check for unbalanced braces."));
    let e = parse_error("]");
    assert_eq!(e.help.as_deref(), Some("Found ']' without matching '['. Check for unbalanced brackets."));
    let e = parse_error("else");
    assert_eq!(e.message, "Expected expression, found 'else'");
    assert_eq!(
        e.help.as_deref(),
        Some("Expected a literal value, variable, or parenthesized expression here.")
    );
    let e = parse_error("x =");
    assert_eq!(e.message, "Unexpected end of input");
    assert_eq!(e.span, Span::new(3, 4));
    let e = parse_error("(");
    assert_eq!(e.message, "Expected expression after '('");
    assert_eq!(e.span, Span::new(0, 1));
}

#[test]
fn only_variables_can_be_assigned_to() {
    let e = parse_error("1 = x");
    assert_eq!(e.message, "Invalid assignment target");
    assert_eq!(e.span, Span::new(2, 3));
    assert_eq!(parse_error("a + b = 1").message, "Invalid assignment target");
    assert_eq!(parse_error("f() = 1").message, "Invalid assignment target");
    assert_eq!(parse_error("(a) = 1").message, "Invalid assignment target");
}

#[test]
fn argument_lists_are_checked() {
    assert_eq!(parse_error("foo(1, 2").message, "Expected ')' after arguments");
    // At the end of input the error stands just past the last token.
    let e = parse_error("foo(");
    assert_eq!(e.message, "Unexpected end of input in function call");
    assert_eq!(e.span, Span::new(4, 5));
    let e = parse_error("some_function(1,  ");
    assert_eq!(e.message, "Unexpected end of input after ',' in function call");
    assert_eq!(e.span, Span::new(16, 17));
    assert_eq!(parse_error("foo(1, 2,)").message, "Invalid expression in function call arguments");
    assert_eq!(parse_error("foo(a = 1, 2)").message, "Positional argument after keyword argument");
    assert_eq!(parse_error("foo(a = 1, b)").message, "Positional argument after keyword argument");
    assert_eq!(parse_error("foo(a = )").message, "Invalid expression in keyword argument");
    assert_eq!(parse_error("foo(1 }").message, "Expected ')' after arguments");
    assert_eq!(parse_error("foo(]").message, "Expected ')' to close function call");
    assert_eq!(parse_error("foo(1, })").message, "Expected ')' to close function call");
    assert_eq!(parse_error("a.1").message, "Expected property name after '.'.");
}

#[test]
fn statements_report_what_they_miss() {
    assert_eq!(parse_error("if x").message, "Expected '(' after 'if'");
    assert_eq!(parse_error("if (x y").message, "Expected ')' after if condition");
    assert_eq!(parse_error("while x").message, "Expected '(' after 'while'");
    assert_eq!(parse_error("while (x {").message, "Expected ')' after while condition");
    assert_eq!(parse_error("for x").message, "Expected '(' after 'for'");
    assert_eq!(parse_error("for (a; b) c").message, "Expected ';' after loop condition");
    assert_eq!(parse_error("for (a; b; c d").message, "Expected ')' after for clauses");
    assert_eq!(parse_error("{ x = 1").message, "Expected '}' after block");
    assert_eq!(parse_error("[1, 2").message, "Expected ']' after list elements");
    assert_eq!(parse_error("[1, ]").message, "Expected expression, found ']'");
    assert_eq!(parse_error("x = {\"a\" 1}").message, "Expected ':' after dictionary key");
    assert_eq!(parse_error("x = {\"a\": 1").message, "Expected '}' after dictionary pairs");
    let e = parse_error("if (true)");
    assert_eq!(e.message, "Unexpected end of input");
    assert_eq!(e.span, Span::new(9, 10));
    let e = parse_error("while (x");
    assert_eq!(e.span, Span::new(8, 9));
    assert_eq!(e.help, None);
}

fn token(kind: TokenType, lexeme: &str, start: usize) -> Token {
    Token::new(kind, lexeme.to_string(), Span::new(start, start + lexeme.len()))
}

fn parse_tokens(mut tokens: Vec<Token>) -> Result<Program, BccError> {
    let end = tokens.last().map(|t| t.span.end).unwrap_or(0);
    tokens.push(Token::new(TokenType::Eof, String::new(), Span::single(end)));
    Parser::new(tokens).parse()
}

#[test]
fn a_list_of_targets_is_not_written_in_source() {
    // No source text parses to a tuple: the statement ends before the
    // comma, and no statement begins with one.
    let e = parse_error("a, b = 1, 2");
    assert_eq!(e.kind, ErrorKind::ParseError);
    assert_eq!(e.span, Span::new(1, 2));
    assert_eq!(e.message, "Expected expression, found ','");
    // Alone, the placeholder is a variable like any other.
    assert_eq!(parsed("_ = 1"), "(= _ 1)");
}

#[test]
fn literals_of_tokens_made_by_hand_are_checked() {
    let program = parse_tokens(vec![token(TokenType::Integer, "-12", 0)]).unwrap();
    assert!(matches!(
        &program.statements[0],
        Stmt::Expression { expr: Expr::Literal { value: Value::Int(-12), .. }, .. }
    ));
    for text in ["", "abc", "1x", "9223372036854775808", "--1", "1.0"] {
        let e = parse_tokens(vec![token(TokenType::Integer, text, 0)]).unwrap_err();
        assert_eq!(e.message, "Invalid integer", "{:?}", text);
        assert_eq!(e.kind, ErrorKind::ParseError);
    }
    for text in ["", "1", "1.", ".5", "1.5x", "1e5", "-1.5"] {
        let e = parse_tokens(vec![token(TokenType::Double, text, 0)]).unwrap_err();
        assert_eq!(e.message, "Invalid double", "{:?}", text);
    }
    assert!(parse_tokens(vec![token(TokenType::Double, "0.5", 0)]).is_ok());
    // The parser stops at the first end token.
    let tokens = vec![
        token(TokenType::Integer, "1", 0),
        Token::new(TokenType::Eof, String::new(), Span::new(1, 2)),
        token(TokenType::Plus, "+", 2),
    ];
    assert_eq!(parse_tokens(tokens).unwrap().statements.len(), 1);
    // A parser that stands at the end parses nothing.
    let mut parser = Parser::new(vec![Token::new(TokenType::Eof, String::new(), Span::new(0, 1))]);
    assert_eq!(parser.parse().unwrap().statements.len(), 0);
    assert_eq!(parser.parse().unwrap().statements.len(), 0);
}

#[test]
fn integers_are_read_with_an_optional_sign() {
    assert_eq!(parse_integer("0"), Some(0));
    assert_eq!(parse_integer("007"), Some(7));
    assert_eq!(parse_integer("+15"), Some(15));
    assert_eq!(parse_integer("-15"), Some(-15));
    assert_eq!(parse_integer("9223372036854775807"), Some(i64::MAX));
    assert_eq!(parse_integer("-9223372036854775808"), Some(i64::MIN));
    assert_eq!(parse_integer("-0009223372036854775808"), Some(i64::MIN));
    for text in [
        "", "-", "+", "9223372036854775808", "-9223372036854775809", "1 ", " 1", "1_000", "٣",
        "0x10", "+-1", "1.0", "99999999999999999999999",
    ] {
        assert_eq!(parse_integer(text), None, "{:?}", text);
        assert_eq!(text.parse::<i64>().ok(), None, "{:?}", text);
    }
    for text in ["0", "-1", "+1", "123456789", "-9223372036854775808"] {
        assert_eq!(parse_integer(text), text.parse::<i64>().ok(), "{:?}", text);
    }
}

#[test]
fn a_double_is_digits_a_point_and_digits() {
    for text in ["0.0", "3.14", "007.500", "99999999999999999999.9"] {
        assert!(looks_like_double(text), "{:?}", text);
    }
    for text in ["", ".", "1", "1.", ".5", "1.5.", "1.5e3", "-1.5", "1,5", "1.٣", "a.b"] {
        assert!(!looks_like_double(text), "{:?}", text);
    }
}

#[test]
fn the_logical_and_unary_operators_are_told_apart() {
    assert!(matches!(expression("a and b"), Expr::Logical { operator: LogicalOp::And, .. }));
    assert!(matches!(expression("a or b"), Expr::Logical { operator: LogicalOp::Or, .. }));
    assert!(matches!(expression("!a"), Expr::Unary { operator: UnaryOp::Not, .. }));
    assert!(matches!(expression("not a"), Expr::Unary { operator: UnaryOp::Not, .. }));
    assert!(matches!(expression("-a"), Expr::Unary { operator: UnaryOp::Negate, .. }));
}

#[test]
fn a_lexical_error_comes_before_a_parse_error() {
    let e = parse_error("(1 + \"open");
    assert_eq!(e.kind, ErrorKind::LexError);
    assert_eq!(e.message, "Unterminated string");
    let mut lexer = Lexer::new("(".to_string());
    assert!(lexer.scan_tokens().is_ok());
}

#[test]
fn the_span_of_an_error_ends_no_earlier_than_it_starts() {
    let sources = [
        "(1 + 2",
        "()",
        "f(1, 2",
        "f(a=1, 2)",
        "[1, 2",
        "{\"a\": 1",
        "{\"a\": }",
        "1 +",
        "1 = 2",
        "if (a",
        "while a",
        "for (;;",
        "{ x = 1",
        "x.",
        "\"open",
        "a @ b",
        "99999999999999999999",
    ];
    for source in sources {
        let e = parse_error(source);
        assert!(e.span.start <= e.span.end, "{:?} in {:?}", e, source);
        assert!(e.span.end <= source.len() + 1, "{:?} in {:?}", e, source);
    }
}

#[test]
fn a_single_expression_is_echoed_unless_it_assigns() {
    let program = parse("1 + 2");
    assert_eq!(echoed(&program).map(shape), Some(parsed("1 + 2")));
    let program = parse("x");
    assert_eq!(echoed(&program).map(|e| e.span()), Some(Span::new(0, 1)));
    assert!(echoed(&parse("x = 1")).is_none());
    assert!(echoed(&parse("(x = 1)")).is_some());
    assert!(echoed(&parse("1; 2")).is_none());
    assert!(echoed(&parse("")).is_none());
    assert!(echoed(&parse("{ 1 }")).is_none());
    assert!(echoed(&parse("if (a) b")).is_none());
    assert!(echoed(&parse("{\"a\": 1}")).is_some());
}
