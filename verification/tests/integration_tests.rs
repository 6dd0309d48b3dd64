// Parser robustness tests: malformed input must be rejected with the
// expected message, well-formed input must be accepted.

use bcc::ast::Program;
use bcc::error::BccError;
use bcc::lexer::Lexer;
use bcc::parser::Parser;

/// One case: an input, whether it must parse, and a text that the error
/// message must contain.
struct TestCase {
    name: String,
    input: String,
    should_succeed: bool,
    expected_error_contains: Option<String>,
}

impl TestCase {
    fn should_succeed(name: &str, input: &str) -> Self {
        Self {
            name: name.to_string(),
            input: input.to_string(),
            should_succeed: true,
            expected_error_contains: None,
        }
    }

    fn should_fail(name: &str, input: &str) -> Self {
        Self {
            name: name.to_string(),
            input: input.to_string(),
            should_succeed: false,
            expected_error_contains: None,
        }
    }

    fn should_fail_with_message(name: &str, input: &str, expected_msg: &str) -> Self {
        Self {
            name: name.to_string(),
            input: input.to_string(),
            should_succeed: false,
            expected_error_contains: Some(expected_msg.to_string()),
        }
    }
}

fn parse_input(input: &str) -> Result<Program, BccError> {
    let mut lexer = Lexer::new(input.to_string());
    let tokens = lexer.scan_tokens()?;
    let mut parser = Parser::new(tokens);
    parser.parse()
}

/// Runs one case and says what went wrong, if anything.
fn run_single_test(test: &TestCase) -> Result<(), String> {
    match (parse_input(&test.input), test.should_succeed) {
        (Ok(_), true) => Ok(()),
        (Ok(_), false) => Err("Expected parsing to fail, but it succeeded".to_string()),
        (Err(error), false) => match &test.expected_error_contains {
            Some(expected) if !error.message.contains(expected.as_str()) => Err(format!(
                "Error message '{}' doesn't contain expected text '{}'",
                error.message, expected
            )),
            _ => Ok(()),
        },
        (Err(error), true) => Err(format!(
            "Expected parsing to succeed, but got error: {}",
            error.message
        )),
    }
}

fn run_suite(name: &str, tests: Vec<TestCase>) -> usize {
    println!("Running test suite: {}", name);
    let mut failed = 0;
    for test in &tests {
        match run_single_test(test) {
            Ok(()) => println!("  ok {}", test.name),
            Err(message) => {
                failed += 1;
                println!("  FAILED {}: {}", test.name, message);
            }
        }
    }
    failed
}

fn create_malformed_expressions_tests() -> Vec<TestCase> {
    vec![
        TestCase::should_fail_with_message(
            "unmatched_opening_paren",
            "(1 + 2",
            "Expected ')' after expression",
        ),
        TestCase::should_fail_with_message(
            "unmatched_opening_paren_nested",
            "((1 + 2)",
            "Expected ')' after expression",
        ),
        TestCase::should_fail_with_message(
            "unmatched_opening_paren_complex",
            "(1 + (2 * 3)",
            "Expected ')' after expression",
        ),
        TestCase::should_fail_with_message(
            "unmatched_closing_paren",
            "1 + 2)",
            "Expected expression, found ')'",
        ),
        TestCase::should_fail_with_message(
            "unmatched_closing_paren_multiple",
            "1 + 2))",
            "Expected expression, found ')'",
        ),
        TestCase::should_fail_with_message(
            "empty_parentheses",
            "()",
            "Empty parentheses are not allowed",
        ),
        TestCase::should_fail_with_message(
            "empty_parentheses_in_expression",
            "1 + ()",
            "Expected expression after '+'",
        ),
        TestCase::should_fail_with_message(
            "unmatched_opening_bracket",
            "[1, 2",
            "Expected ']' after list elements",
        ),
        TestCase::should_fail_with_message(
            "unmatched_opening_brace",
            "{ x = 1",
            "Expected '}' after block",
        ),
        TestCase::should_fail_with_message(
            "unmatched_closing_brace",
            "x = 1 }",
            "Expected expression, found '}'",
        ),
    ]
}

fn create_edge_case_tests() -> Vec<TestCase> {
    let deep_parens = "(".repeat(100) + "1" + &")".repeat(100);
    vec![
        TestCase::should_succeed("empty_input", ""),
        TestCase::should_succeed("only_whitespace", "   \n\t  "),
        TestCase::should_fail("unexpected_eof_after_operator", "1 +"),
        TestCase::should_fail("unexpected_eof_in_expression", "1 + ("),
        TestCase::should_succeed("deeply_nested_parens", &deep_parens),
    ]
}

fn create_operator_tests() -> Vec<TestCase> {
    vec![
        TestCase::should_fail("missing_left_operand", "+ 1"),
        TestCase::should_fail("missing_right_operand", "1 +"),
        TestCase::should_fail("missing_both_operands", "+"),
        TestCase::should_fail("double_plus", "1 ++ 2"),
        // A second minus is a prefix operator: 1 - (-2).
        TestCase::should_succeed("double_minus", "1 -- 2"),
        TestCase::should_succeed("mixed_operators", "1 +- 2"),
        TestCase::should_succeed("comparison_equal", "1 == 2"),
        TestCase::should_succeed("comparison_not_equal", "1 != 2"),
        TestCase::should_succeed("comparison_less", "1 < 2"),
        TestCase::should_succeed("comparison_greater", "1 > 2"),
    ]
}

fn create_control_flow_tests() -> Vec<TestCase> {
    vec![
        TestCase::should_succeed("valid_if", "if (true) { x = 1 }"),
        TestCase::should_fail("if_missing_condition", "if { x = 1 }"),
        TestCase::should_fail("if_missing_body", "if (true)"),
        TestCase::should_succeed("valid_while", "while (true) { x = 1 }"),
        TestCase::should_fail("while_missing_condition", "while { x = 1 }"),
        TestCase::should_fail("while_missing_body", "while (true)"),
        TestCase::should_succeed("valid_for", "for (i = 0; i < 10; i = i + 1) { print i }"),
        // The semicolon after the initializer is optional.
        TestCase::should_succeed(
            "for_missing_semicolon",
            "for (i = 0 i < 10; i = i + 1) { print i }",
        ),
    ]
}

fn create_literal_tests() -> Vec<TestCase> {
    vec![
        TestCase::should_succeed("integer_literal", "42"),
        TestCase::should_succeed("double_literal", "3.14"),
        TestCase::should_succeed("string_literal", "\"hello\""),
        TestCase::should_succeed("boolean_true", "true"),
        TestCase::should_succeed("boolean_false", "false"),
        TestCase::should_fail("multiple_dots", "3.14.159"),
        TestCase::should_fail("trailing_dot", "42."),
        TestCase::should_fail("leading_dot", ".42"),
        TestCase::should_fail("unterminated_string", "\"hello"),
        TestCase::should_fail("unterminated_string_with_newline", "\"hello\nworld"),
    ]
}

fn create_function_call_tests() -> Vec<TestCase> {
    vec![
        TestCase::should_succeed("simple_function_call", "foo()"),
        TestCase::should_succeed("function_call_with_args", "foo(1, 2, 3)"),
        TestCase::should_fail("missing_closing_paren", "foo(1, 2"),
        TestCase::should_fail("missing_opening_paren", "foo 1, 2)"),
        TestCase::should_fail("trailing_comma", "foo(1, 2,)"),
    ]
}

fn create_assignment_tests() -> Vec<TestCase> {
    vec![
        TestCase::should_succeed("simple_assignment", "x = 1"),
        TestCase::should_succeed("assignment_with_expression", "x = 1 + 2"),
        TestCase::should_fail("missing_value", "x ="),
        TestCase::should_fail("invalid_target", "1 = x"),
    ]
}

fn create_mixed_construct_tests() -> Vec<TestCase> {
    vec![
        TestCase::should_succeed("complex_expression", "x = (1 + 2) * 3 + foo(4, 5)"),
        TestCase::should_fail("mixed_paren_bracket_error", "x = [1 + (2 * 3]"),
    ]
}

fn create_positive_tests() -> Vec<TestCase> {
    vec![
        TestCase::should_succeed("simple_arithmetic", "1 + 2 * 3"),
        TestCase::should_succeed("parentheses", "(1 + 2) * 3"),
        TestCase::should_succeed("variable_assignment", "x = 42"),
        TestCase::should_succeed("string_concatenation", "\"hello\" + \" world\""),
        TestCase::should_succeed("boolean_operations", "true and false"),
        TestCase::should_succeed("comparison", "1 < 2"),
    ]
}

#[test]
fn comprehensive_parser_tests() {
    println!("🧪 BCC Parser Robustness Test Suite");
    println!("====================================\n");

    let suites = vec![
        ("Malformed Expressions", create_malformed_expressions_tests()),
        ("Edge Cases", create_edge_case_tests()),
        ("Operator Tests", create_operator_tests()),
        ("Control Flow Tests", create_control_flow_tests()),
        ("Literal Tests", create_literal_tests()),
        ("Function Call Tests", create_function_call_tests()),
        ("Assignment Tests", create_assignment_tests()),
        ("Mixed Construct Tests", create_mixed_construct_tests()),
        ("Positive Tests", create_positive_tests()),
    ];

    let mut failed = 0;
    for (name, tests) in suites {
        failed += run_suite(name, tests);
    }

    if failed == 0 {
        println!("🎉 ALL TESTS PASSED! Parser is robust and handles all edge cases gracefully.");
    } else {
        println!("⚠️  Some tests failed. See output above for details.");
    }
    assert_eq!(failed, 0);
}
