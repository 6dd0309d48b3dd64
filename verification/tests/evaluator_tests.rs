// The evaluator, driven by a host that computes with the machine's
// floating-point numbers.

use bcc::ast::{AssignTarget, Expr, Program, Stmt};
use bcc::error::{BccError, ErrorKind, Span};
use bcc::evaluator::{Action, Evaluation, Evaluator};
use bcc::host::{Answer, Comparison, FloatOp, Number, Piece, Reply, Request, Rounding};
use bcc::runner::run;
use bcc::value::{CaseResult, DictEntry, Double, Value};

fn to_f64(n: &Number) -> f64 {
    match n {
        Number::Int(i) => *i as f64,
        Number::Double(d) => f64::from_bits(d.bits),
    }
}

fn double(x: f64) -> Double {
    Double::from_bits(x.to_bits())
}

fn answer(request: &Request<String>) -> Reply {
    match request {
        Request::Parse(text) => Reply::Double(double(text.parse::<f64>().unwrap())),
        Request::Arithmetic(op, a, b) => {
            let (a, b) = (to_f64(a), to_f64(b));
            Reply::Double(double(match op {
                FloatOp::Add => a + b,
                FloatOp::Subtract => a - b,
                FloatOp::Multiply => a * b,
                FloatOp::Divide => a / b,
            }))
        }
        Request::Compare(op, a, b) => {
            let (a, b) = (to_f64(a), to_f64(b));
            Reply::Bool(match op {
                Comparison::Equal => a == b,
                Comparison::Less => a < b,
                Comparison::LessEqual => a <= b,
                Comparison::Greater => a > b,
                Comparison::GreaterEqual => a >= b,
            })
        }
        Request::Divmod(rounding, a, b) => {
            let (a, b) = (to_f64(a), to_f64(b));
            let q = match rounding {
                Rounding::Down => (a / b).floor(),
                Rounding::Up => (a / b).ceil(),
                Rounding::Nearest => (a / b).round(),
            };
            Reply::Pair(double(q), double(a - q * b))
        }
        Request::NearestQuotient(a, b) => Reply::Int(((*a as f64) / (*b as f64)).round() as i64),
    }
}

fn show(pieces: &[Piece<String>]) -> String {
    let mut text = String::new();
    for piece in pieces {
        match piece {
            Piece::Text(t) => text.push_str(t),
            Piece::Double(d) => {
                let x = f64::from_bits(d.bits);
                if x.fract() == 0.0 {
                    text.push_str(&format!("{:.1}", x));
                } else {
                    text.push_str(&format!("{}", x));
                }
            }
        }
    }
    text
}

/// Takes steps until the evaluation is done; returns what was printed
/// and the outcome.
fn drive(evaluation: &mut Evaluation) -> (Vec<String>, Result<Value, BccError>) {
    let mut printed = Vec::new();
    let mut reply = Reply::Nothing;
    for _ in 0..100_000 {
        match evaluation.run(reply, 64) {
            Action::Continue => reply = Reply::Nothing,
            Action::Print(pieces) => {
                printed.push(show(&pieces));
                reply = Reply::Nothing;
            }
            Action::Ask(request) => reply = answer(&request),
            Action::Done(result) => return (printed, result),
            Action::Lost => panic!("the evaluation is lost"),
        }
    }
    panic!("the evaluation did not end");
}

/// Runs a program; returns what it printed, its outcome and the
/// evaluator after it.
fn execute(source: &str) -> (Vec<String>, Result<Value, BccError>, Evaluator) {
    let program = run(source).expect("the source is a program");
    let mut evaluation = Evaluator::new().evaluate_program(&program);
    let (printed, result) = drive(&mut evaluation);
    (printed, result, evaluation.into_evaluator())
}

/// Evaluates a source that is one expression statement.
fn eval(source: &str) -> Result<Value, BccError> {
    let program = run(source).expect("the source is a program");
    assert_eq!(program.statements.len(), 1);
    match &program.statements[0] {
        Stmt::Expression { expr, .. } => {
            let mut evaluation = Evaluator::new().evaluate_expression(expr);
            drive(&mut evaluation).1
        }
        _ => panic!("not an expression"),
    }
}

fn printed(source: &str) -> Vec<String> {
    let (lines, result, _) = execute(source);
    assert!(result.is_ok(), "{:?}", result);
    lines
}

fn failure(source: &str) -> BccError {
    match execute(source).1 {
        Err(e) => e,
        Ok(v) => panic!("expected an error, got {:?}", v),
    }
}

fn list(items: Vec<Value>) -> Value {
    Value::List(items)
}

fn tuple(items: Vec<Value>) -> Value {
    Value::Tuple(items)
}

fn text(s: &str) -> Value {
    Value::String(s.to_string())
}

fn float(x: f64) -> Value {
    Value::Double(double(x))
}

#[test]
fn multiplication_binds_tighter_than_addition() {
    assert_eq!(eval("1 + 2 * 3"), Ok(Value::Int(7)));
    assert_eq!(eval("(1 + 2) * 3"), Ok(Value::Int(9)));
    assert_eq!(eval("10 - 4 - 3"), Ok(Value::Int(3)));
}

#[test]
fn integer_arithmetic_wraps_around() {
    assert_eq!(eval("9223372036854775807 + 1"), Ok(Value::Int(i64::MIN)));
    assert_eq!(eval("0 - 9223372036854775807 - 2"), Ok(Value::Int(i64::MAX)));
    assert_eq!(eval("4611686018427387904 * 2"), Ok(Value::Int(i64::MIN)));
    assert_eq!(eval("-5"), Ok(Value::Int(-5)));
    assert_eq!(eval("--5"), Ok(Value::Int(5)));
}

#[test]
fn division_gives_a_double() {
    assert_eq!(eval("1 / 2"), Ok(float(0.5)));
    assert_eq!(eval("6 / 3"), Ok(float(2.0)));
    assert_eq!(eval("1.5 + 1"), Ok(float(2.5)));
    assert_eq!(eval("2 * 2.5"), Ok(float(5.0)));
    assert_eq!(eval("3.5 - 0.5"), Ok(float(3.0)));
    assert_eq!(eval("-2.5"), Ok(float(-2.5)));
}

#[test]
fn division_by_zero_is_an_error() {
    for source in ["1 / 0", "1.0 / 0", "1 / 0.0", "1.5 / 0.0", "divmod(1, 0)", "divmod(1.0, 0.0)"] {
        let e = failure(source);
        assert_eq!(e.message, "Division by zero", "{}", source);
        assert_eq!(e.kind, ErrorKind::RuntimeError);
    }
}

#[test]
fn operands_of_other_types_are_errors() {
    assert_eq!(failure("1 + \"a\"").message, "Cannot add int and string");
    assert_eq!(failure("\"a\" - \"b\"").message, "Cannot subtract string and string");
    assert_eq!(failure("nil * 2").message, "Cannot multiply nil and int");
    assert_eq!(failure("[1] / 2.0").message, "Cannot divide list and double");
    assert_eq!(failure("1 < \"a\"").message, "Cannot compare int and string");
    assert_eq!(failure("true >= false").message, "Cannot compare bool and bool");
    assert_eq!(failure("-\"a\"").message, "Cannot negate string");
}

#[test]
fn strings_are_not_added() {
    let e = eval("\"a\" + \"b\"").unwrap_err();
    assert_eq!(e.kind, ErrorKind::RuntimeError);
    assert_eq!(e.message, "Cannot add string and string");
    assert_eq!(e.span, Span::new(0, 9));
    assert_eq!(eval("\"a\" + 1").unwrap_err().message, "Cannot add string and int");
    assert_eq!(eval("\"a\" * \"b\"").unwrap_err().message, "Cannot multiply string and string");
}

#[test]
fn numbers_are_compared() {
    assert_eq!(eval("1 < 2"), Ok(Value::Bool(true)));
    assert_eq!(eval("2 <= 1"), Ok(Value::Bool(false)));
    assert_eq!(eval("2 > 1"), Ok(Value::Bool(true)));
    assert_eq!(eval("1 >= 1"), Ok(Value::Bool(true)));
    assert_eq!(eval("1.5 < 2"), Ok(Value::Bool(true)));
    assert_eq!(eval("2 > 2.5"), Ok(Value::Bool(false)));
    assert_eq!(eval("2.5 >= 2.5"), Ok(Value::Bool(true)));
}

#[test]
fn equality_promotes_integers_and_compares_elements() {
    assert_eq!(eval("1 == 1.0"), Ok(Value::Bool(true)));
    assert_eq!(eval("1 != 1.0"), Ok(Value::Bool(false)));
    assert_eq!(eval("1.5 == 1.5"), Ok(Value::Bool(true)));
    assert_eq!(eval("[1,2] == [1,2]"), Ok(Value::Bool(true)));
    assert_eq!(eval("[1,2] == [1,3]"), Ok(Value::Bool(false)));
    assert_eq!(eval("[1,2] == [1,2,3]"), Ok(Value::Bool(false)));
    assert_eq!(eval("[1,[2,3.0]] == [1.0,[2,3]]"), Ok(Value::Bool(true)));
    assert_eq!(eval("[[1,2],[3,4]] != [[1,2],[3,5]]"), Ok(Value::Bool(true)));
    assert_eq!(eval("{\"a\":1} == {\"a\":1}"), Ok(Value::Bool(false)));
    assert_eq!(eval("nil == nil"), Ok(Value::Bool(true)));
    assert_eq!(eval("\"a\" == \"a\""), Ok(Value::Bool(true)));
    assert_eq!(eval("\"a\" == 1"), Ok(Value::Bool(false)));
    assert_eq!(eval("true != false"), Ok(Value::Bool(true)));
}

#[test]
fn len_counts_characters_items_and_entries() {
    assert_eq!(eval("len(\"abc\")"), Ok(Value::Int(3)));
    assert_eq!(eval("len(\"äöü\")"), Ok(Value::Int(3)));
    assert_eq!(eval("len([1,2])"), Ok(Value::Int(2)));
    assert_eq!(eval("len({\"a\": 1, \"b\": 2, \"a\": 3})"), Ok(Value::Int(2)));
    let e = failure("len(1)");
    assert_eq!(e.kind, ErrorKind::RuntimeError);
    assert_eq!(e.message, "len() not supported for type int");
    assert_eq!(failure("len()").message, "len() takes exactly 1 argument, got 0");
    assert_eq!(failure("len(1, 2)").message, "len() takes exactly 1 argument, got 2");
    assert_eq!(
        failure("len(1, 2, 3, 4, 5, 6, 7, 8, 9, 10, 11, 12)").message,
        "len() takes exactly 1 argument, got 12"
    );
}

#[test]
fn type_names_every_kind_of_value() {
    assert_eq!(eval("type(nil)"), Ok(text("nil")));
    assert_eq!(eval("type(true)"), Ok(text("bool")));
    assert_eq!(eval("type(1)"), Ok(text("int")));
    assert_eq!(eval("type(1.5)"), Ok(text("double")));
    assert_eq!(eval("type(\"a\")"), Ok(text("string")));
    assert_eq!(eval("type([])"), Ok(text("list")));
    assert_eq!(eval("type({})"), Ok(text("dict")));
    assert_eq!(eval("type(case(true, 1))"), Ok(text("case_result")));
    assert_eq!(eval("type(divmod(1, 2))"), Ok(text("tuple")));
    assert_eq!(failure("type()").message, "type() takes exactly 1 argument, got 0");
}

#[test]
fn divmod_rounds_by_mode() {
    assert_eq!(eval("divmod(7, 2)"), Ok(tuple(vec![Value::Int(3), Value::Int(1)])));
    assert_eq!(eval("divmod(-7, 2)"), Ok(tuple(vec![Value::Int(-3), Value::Int(-1)])));
    assert_eq!(
        eval("divmod(7, 2, round_mode=\"down\")"),
        Ok(tuple(vec![Value::Int(3), Value::Int(1)]))
    );
    // Up: operands of one sign take (a + b - 1) / b.
    assert_eq!(
        eval("divmod(7, 2, round_mode=\"up\")"),
        Ok(tuple(vec![Value::Int(4), Value::Int(-1)]))
    );
    // Up: operands of different signs take the truncated quotient.
    assert_eq!(
        eval("divmod(-7, 2, round_mode=\"up\")"),
        Ok(tuple(vec![Value::Int(-3), Value::Int(-1)]))
    );
    // Up with two negative operands: (-7 + -2 - 1) / -2 = 5.
    assert_eq!(
        eval("divmod(-7, -2, round_mode=\"up\")"),
        Ok(tuple(vec![Value::Int(5), Value::Int(3)]))
    );
    assert_eq!(
        eval("divmod(7, 2, round_mode=\"nearest\")"),
        Ok(tuple(vec![Value::Int(4), Value::Int(-1)]))
    );
    assert_eq!(eval("divmod(7.5, 2)"), Ok(tuple(vec![float(3.0), float(1.5)])));
    assert_eq!(
        eval("divmod(7.5, 2.0, round_mode=\"up\")"),
        Ok(tuple(vec![float(4.0), float(-0.5)]))
    );
    assert_eq!(
        eval("divmod(7, 2.0, round_mode=\"nearest\")"),
        Ok(tuple(vec![float(4.0), float(-1.0)]))
    );
}

#[test]
fn divmod_of_the_least_integer_wraps() {
    assert_eq!(
        eval("divmod(0 - 9223372036854775807 - 1, 0 - 1)"),
        Ok(tuple(vec![Value::Int(i64::MIN), Value::Int(0)]))
    );
}

#[test]
fn divmod_rejects_what_it_cannot_take() {
    assert_eq!(
        failure("divmod(7, 2, round_mode=\"sideways\")").message,
        "Unknown rounding mode 'sideways'"
    );
    assert_eq!(
        failure("divmod(7.0, 2, round_mode=\"sideways\")").message,
        "Unknown rounding mode 'sideways'"
    );
    assert_eq!(failure("divmod(7, 2, round_mode=1)").message, "round_mode must be a string");
    assert_eq!(
        failure("divmod(7, 2, mode=\"up\")").message,
        "Unknown keyword argument 'mode' for divmod()"
    );
    assert_eq!(
        failure("divmod(7, round_mode=\"up\")").message,
        "divmod() takes exactly 2 positional arguments, got 1"
    );
    assert_eq!(failure("divmod(7)").message, "divmod() takes exactly 2 arguments, got 1");
    assert_eq!(
        failure("divmod(\"a\", 2)").message,
        "divmod() not supported for types string and int"
    );
}

#[test]
fn the_last_keyword_argument_counts() {
    assert_eq!(
        eval("divmod(7, 2, round_mode=\"down\", round_mode=\"up\")"),
        Ok(tuple(vec![Value::Int(4), Value::Int(-1)]))
    );
}

#[test]
fn other_functions_take_no_keyword_arguments() {
    let e = failure("print(1, sep=\"\")");
    assert_eq!(e.message, "Function 'print' does not accept keyword arguments");
    assert_eq!(
        e.help.as_deref(),
        Some("Only some built-in functions support keyword arguments.")
    );
    assert_eq!(
        failure("len(\"a\", x=1)").message,
        "Function 'len' does not accept keyword arguments"
    );
    assert_eq!(
        failure("x = 1 x(y=2)").message,
        "User-defined functions with kwargs not yet implemented"
    );
}

#[test]
fn case_takes_the_first_condition_that_holds() {
    let (lines, result, _) = execute("x = case(false, 1, true, 2, print(\"late\"), 3) print(x.result)");
    assert!(result.is_ok());
    assert_eq!(lines, vec!["2"]);
    assert_eq!(
        eval("case(false, 1, true, 2, true, 3)"),
        Ok(Value::CaseResult(CaseResult { result: Box::new(Value::Int(2)) }))
    );
    assert_eq!(eval("case(false, 1, true, 2, true, 3).result"), Ok(Value::Int(2)));
    assert_eq!(
        eval("case(false, 1, 0, 2)"),
        Ok(Value::CaseResult(CaseResult { result: Box::new(Value::Nil) }))
    );
    assert_eq!(eval("case(1, \"one\").result"), Ok(text("one")));
}

#[test]
fn case_does_not_evaluate_results_it_skips() {
    assert_eq!(printed("case(false, print(\"a\"), true, print(\"b\"))"), vec!["b"]);
}

#[test]
fn case_needs_pairs() {
    assert_eq!(
        failure("case()").message,
        "case() requires an even number of arguments (at least 2), got 0"
    );
    assert_eq!(
        failure("case(true, 1, false)").message,
        "case() requires an even number of arguments (at least 2), got 3"
    );
}

#[test]
fn only_case_results_have_a_property() {
    assert_eq!(
        failure("case(true, 1).value").message,
        "Unknown property 'value' on case_result"
    );
    assert_eq!(failure("x = 1 x.result").message, "Property access not supported for type int");
}

#[test]
fn logical_operators_short_circuit() {
    assert_eq!(eval("1 or 2"), Ok(Value::Int(1)));
    assert_eq!(eval("0 or 2"), Ok(Value::Int(2)));
    assert_eq!(eval("0 and 2"), Ok(Value::Int(0)));
    assert_eq!(eval("1 and 2"), Ok(Value::Int(2)));
    assert_eq!(eval("nil or \"\""), Ok(text("")));
    assert_eq!(printed("true or print(\"no\")"), Vec::<String>::new());
    assert_eq!(printed("false and print(\"no\")"), Vec::<String>::new());
    assert_eq!(printed("false or print(\"yes\")"), vec!["yes"]);
}

#[test]
fn truthiness_follows_the_value() {
    for source in ["nil", "false", "0", "0.0", "\"\"", "[]", "{}", "case(true, 0)"] {
        assert_eq!(eval(&format!("not {}", source)), Ok(Value::Bool(true)), "{}", source);
    }
    for source in ["true", "1", "0.5", "\"a\"", "[0]", "{\"a\": 0}", "case(true, 1)", "divmod(1, 1)"] {
        assert_eq!(eval(&format!("!{}", source)), Ok(Value::Bool(false)), "{}", source);
    }
}

#[test]
fn in_looks_through_lists_dictionaries_and_strings() {
    assert_eq!(eval("2 in [1, 2, 3]"), Ok(Value::Bool(true)));
    assert_eq!(eval("4 in [1, 2, 3]"), Ok(Value::Bool(false)));
    assert_eq!(eval("2.0 in [1, 2, 3]"), Ok(Value::Bool(true)));
    assert_eq!(eval("[2] in [1, [2], 3]"), Ok(Value::Bool(true)));
    assert_eq!(eval("1 in []"), Ok(Value::Bool(false)));
    assert_eq!(eval("3 in divmod(7, 2)"), Ok(Value::Bool(true)));
    assert_eq!(eval("\"a\" in {\"a\": 1}"), Ok(Value::Bool(true)));
    assert_eq!(eval("\"b\" in {\"a\": 1}"), Ok(Value::Bool(false)));
    assert_eq!(eval("\"ell\" in \"hello\""), Ok(Value::Bool(true)));
    assert_eq!(eval("\"\" in \"hello\""), Ok(Value::Bool(true)));
    assert_eq!(eval("\"lo!\" in \"hello\""), Ok(Value::Bool(false)));
    assert_eq!(
        failure("1 in {\"a\": 1}").message,
        "Dictionary key lookup requires a string, got int"
    );
    assert_eq!(
        failure("1 in \"abc\"").message,
        "String containment check requires a string, got int"
    );
    assert_eq!(failure("1 in 2").message, "'in' operator not supported for type int");
}

#[test]
fn a_search_leaves_the_values_in_order() {
    assert_eq!(eval("[2 in [1, 2, 3], 5 in [4], 7]"), Ok(list(vec![
        Value::Bool(true),
        Value::Bool(false),
        Value::Int(7),
    ])));
    assert_eq!(eval("[[1, 2] == [1, 3], 7]"), Ok(list(vec![Value::Bool(false), Value::Int(7)])));
}

#[test]
fn lists_and_dictionaries_are_built_in_order() {
    assert_eq!(eval("[1, \"a\", [true]]"), Ok(list(vec![
        Value::Int(1),
        text("a"),
        list(vec![Value::Bool(true)]),
    ])));
    assert_eq!(
        eval("{\"a\": 1, \"b\": 2, \"a\": 3}"),
        Ok(Value::Dict(vec![
            DictEntry { key: "a".to_string(), value: Value::Int(3) },
            DictEntry { key: "b".to_string(), value: Value::Int(2) },
        ]))
    );
    assert_eq!(eval("{}"), Ok(Value::Dict(vec![])));
}

#[test]
fn dictionary_keys_have_to_be_strings() {
    let e = failure("{1: 2}");
    assert_eq!(e.message, "Dictionary keys must be strings, got int");
    // The value of the entry is evaluated before its key is checked,
    // the entries after it are not evaluated.
    assert_eq!(execute("{1: print(\"v\"), \"a\": print(\"w\")}").0, vec!["v"]);
}

#[test]
fn variables_are_assigned_and_read() {
    let (_, result, evaluator) = execute("x = 42 y = x + 1");
    assert!(result.is_ok());
    assert_eq!(evaluator.get("x"), Some(Value::Int(42)));
    assert_eq!(evaluator.get("y"), Some(Value::Int(43)));
    assert_eq!(evaluator.get("z"), None);
    assert_eq!(eval("x = 5"), Ok(Value::Int(5)));
    assert_eq!(printed("a = b = 3 print(a + b)"), vec!["6"]);
}

#[test]
fn an_undefined_variable_is_an_error() {
    let e = failure("x + 1");
    assert_eq!(e.message, "Undefined variable 'x'");
    assert_eq!(e.span, Span::new(0, 1));
    assert_eq!(e.kind, ErrorKind::RuntimeError);
    assert_eq!(e.to_string(), "Undefined variable 'x'");
}

#[test]
fn the_names_of_the_built_in_functions_are_bound() {
    let evaluator = Evaluator::new();
    assert_eq!(evaluator.get("print"), Some(text("__builtin_print__")));
    assert_eq!(evaluator.get("len"), Some(text("__builtin_len__")));
    assert_eq!(evaluator.get("type"), Some(text("__builtin_type__")));
    assert_eq!(evaluator.get("case"), Some(text("__builtin_case__")));
    assert_eq!(evaluator.get("divmod"), Some(text("__builtin_divmod__")));
}

#[test]
fn only_built_in_functions_can_be_called() {
    assert_eq!(failure("foo = 1 foo()").message, "User-defined functions not yet implemented");
    assert_eq!(failure("\"len\"(1)").message, "User-defined functions not yet implemented");
    assert_eq!(failure("foo()").message, "Undefined variable 'foo'");
}

fn variable(name: &str) -> Expr {
    Expr::Variable { name: name.to_string(), span: Span::new(0, 1) }
}

fn integer(n: i64) -> Expr {
    Expr::Literal { value: Value::Int(n), span: Span::new(0, 1) }
}

fn target(name: &str) -> AssignTarget {
    AssignTarget::Variable { name: name.to_string(), span: Span::new(0, 1) }
}

/// The statement `targets = values`, as a syntax tree.
fn multi_assignment(targets: Vec<AssignTarget>, values: Vec<Expr>) -> Program {
    let span = Span::new(0, 1);
    Program {
        statements: vec![Stmt::Expression {
            expr: Expr::MultiAssign {
                targets,
                value: Box::new(Expr::Tuple { elements: values, span }),
                span,
            },
            span,
        }],
    }
}

fn run_tree(program: &Program) -> (Result<Value, BccError>, Evaluator) {
    let mut evaluation = Evaluator::new().evaluate_program(program);
    let (_, result) = drive(&mut evaluation);
    (result, evaluation.into_evaluator())
}

#[test]
fn a_multi_assignment_binds_each_target() {
    // a, b = 1, 2
    let program = multi_assignment(vec![target("a"), target("b")], vec![integer(1), integer(2)]);
    let (result, evaluator) = run_tree(&program);
    assert!(result.is_ok());
    assert_eq!(evaluator.get("a"), Some(Value::Int(1)));
    assert_eq!(evaluator.get("b"), Some(Value::Int(2)));
}

#[test]
fn a_multi_assignment_skips_the_placeholder() {
    // a, _, c = 1, 2, 3
    let program = multi_assignment(
        vec![target("a"), AssignTarget::Ignore { span: Span::new(0, 1) }, target("c")],
        vec![integer(1), integer(2), integer(3)],
    );
    let (result, evaluator) = run_tree(&program);
    assert!(result.is_ok());
    assert_eq!(evaluator.get("a"), Some(Value::Int(1)));
    assert_eq!(evaluator.get("c"), Some(Value::Int(3)));
    assert_eq!(evaluator.get("_"), None);
}

#[test]
fn a_multi_assignment_needs_enough_values() {
    let program = multi_assignment(vec![target("a"), target("b"), target("c")], vec![integer(1), integer(2)]);
    let (result, evaluator) = run_tree(&program);
    let e = result.unwrap_err();
    assert_eq!(e.message, "Not enough values to unpack (expected 3, got 2)");
    assert_eq!(evaluator.get("a"), None);
    // More values than targets are accepted.
    let program = multi_assignment(vec![target("a")], vec![integer(1), integer(2)]);
    let (result, evaluator) = run_tree(&program);
    assert_eq!(result, Ok(Value::Nil));
    assert_eq!(evaluator.get("a"), Some(Value::Int(1)));
}

#[test]
fn a_multi_assignment_unpacks_lists_and_single_values() {
    let span = Span::new(0, 1);
    let expr = Expr::MultiAssign {
        targets: vec![target("a"), target("b")],
        value: Box::new(Expr::List { elements: vec![integer(1), integer(2)], span }),
        span,
    };
    let mut evaluation = Evaluator::new().evaluate_expression(&expr);
    let (_, result) = drive(&mut evaluation);
    assert_eq!(result, Ok(list(vec![Value::Int(1), Value::Int(2)])));
    let evaluator = evaluation.into_evaluator();
    assert_eq!(evaluator.get("b"), Some(Value::Int(2)));

    let expr = Expr::MultiAssign { targets: vec![target("a")], value: Box::new(integer(9)), span };
    let mut evaluation = Evaluator::new().evaluate_expression(&expr);
    assert_eq!(drive(&mut evaluation).1, Ok(Value::Int(9)));
    assert_eq!(evaluation.into_evaluator().get("a"), Some(Value::Int(9)));
}

#[test]
fn a_multi_return_gives_a_tuple() {
    let span = Span::new(0, 1);
    let expr = Expr::MultiReturn { values: vec![integer(1), variable("len")], span };
    let mut evaluation = Evaluator::new().evaluate_expression(&expr);
    assert_eq!(
        drive(&mut evaluation).1,
        Ok(tuple(vec![Value::Int(1), text("__builtin_len__")]))
    );
}

#[test]
fn a_call_with_no_keyword_arguments_is_a_call() {
    let span = Span::new(0, 1);
    let expr = Expr::CallWithKwargs {
        callee: Box::new(variable("x")),
        positional_args: vec![Expr::Literal { value: text("abc"), span }],
        keyword_args: vec![],
        span,
    };
    let mut evaluator = Evaluator::new();
    // x names len, which names the function.
    let assign = Expr::Assign {
        name: "x".to_string(),
        value: Box::new(Expr::Literal { value: text("len"), span }),
        span,
    };
    let mut evaluation = evaluator.evaluate_expression(&assign);
    assert!(drive(&mut evaluation).1.is_ok());
    evaluator = evaluation.into_evaluator();
    let mut evaluation = evaluator.evaluate_expression(&expr);
    assert_eq!(drive(&mut evaluation).1, Ok(Value::Int(3)));
}

#[test]
fn if_takes_one_branch() {
    assert_eq!(printed("if (1 < 2) { print(\"then\") } else { print(\"else\") }"), vec!["then"]);
    assert_eq!(printed("if (1 > 2) { print(\"then\") } else { print(\"else\") }"), vec!["else"]);
    assert_eq!(printed("if (1 > 2) { print(\"then\") } print(\"after\")"), vec!["after"]);
    assert_eq!(printed("if (1 > 2) print(1) else if (true) print(2) else print(3)"), vec!["2"]);
}

#[test]
fn while_repeats_as_long_as_the_condition_holds() {
    assert_eq!(
        printed("i = 0 while (i < 3) { print(i) i = i + 1 } print(\"done\")"),
        vec!["0", "1", "2", "done"]
    );
    assert_eq!(printed("while (false) { print(1) }"), Vec::<String>::new());
}

#[test]
fn for_runs_initializer_condition_body_and_increment() {
    assert_eq!(printed("for (i = 0; i < 3; i = i + 1) { print(i) }"), vec!["0", "1", "2"]);
    assert_eq!(printed("i = 5 for (; i < 7; i = i + 1) print(i)"), vec!["5", "6"]);
    assert_eq!(
        printed("for (i = 0; i < 2;) { print(i) i = i + 1 } print(i)"),
        vec!["0", "1", "2"]
    );
    assert_eq!(printed("for (i = 0; i < 0; i = i + 1) { print(i) }"), Vec::<String>::new());
}

#[test]
fn a_loop_without_a_condition_ends_with_an_error() {
    let (lines, result, _) = execute("i = 3 for (;;) { print(10 / i) i = i - 1 }");
    let lines_expected: Vec<String> = vec!["3.3333333333333335".into(), "5.0".into(), "10.0".into()];
    assert_eq!(lines, lines_expected);
    assert_eq!(result.unwrap_err().message, "Division by zero");
}

#[test]
fn a_block_opens_a_scope() {
    let (lines, result, evaluator) =
        execute("x = 1 { y = 2 x = x + y print(x) print(y) } print(x)");
    assert!(result.is_ok());
    assert_eq!(lines, vec!["3", "2", "3"]);
    assert_eq!(evaluator.get("x"), Some(Value::Int(3)));
    assert_eq!(evaluator.get("y"), None);
    assert_eq!(failure("{ y = 2; } print(y)").message, "Undefined variable 'y'");
}

#[test]
fn an_error_closes_the_scopes_of_the_blocks() {
    let (_, result, evaluator) = execute("x = 1 { y = 2 { x = 5 z = 3 missing } }");
    assert_eq!(result.unwrap_err().message, "Undefined variable 'missing'");
    assert_eq!(evaluator.get("x"), Some(Value::Int(5)));
    assert_eq!(evaluator.get("y"), None);
    assert_eq!(evaluator.get("z"), None);
    // The evaluator goes on with the scopes it had before.
    let program = run("x = x + 1 w = 7").unwrap();
    let mut evaluation = evaluator.evaluate_program(&program);
    assert!(drive(&mut evaluation).1.is_ok());
    let evaluator = evaluation.into_evaluator();
    assert_eq!(evaluator.get("x"), Some(Value::Int(6)));
    assert_eq!(evaluator.get("w"), Some(Value::Int(7)));
}

#[test]
fn print_writes_each_argument_on_a_line() {
    assert_eq!(printed("print(1, \"two\", 3.0)"), vec!["1", "two", "3.0"]);
    assert_eq!(printed("print()"), Vec::<String>::new());
    assert_eq!(eval("print(1)"), Ok(Value::Nil));
    // What was printed before an error stays printed.
    let (lines, result, _) = execute("print(1) print(2, missing, 3)");
    assert_eq!(lines, vec!["1", "2"]);
    assert!(result.is_err());
}

#[test]
fn values_print_in_their_written_form() {
    assert_eq!(printed("print(nil, true, false, -12, 0)"), vec!["nil", "true", "false", "-12", "0"]);
    assert_eq!(printed("print(2.5, 3.0, 1 / 3, 0.1 + 0.2)"), vec![
        "2.5",
        "3.0",
        "0.3333333333333333",
        "0.30000000000000004",
    ]);
    assert_eq!(printed("print([1, \"a\", [2.0, nil]], [])"), vec!["[1, a, [2.0, nil]]", "[]"]);
    assert_eq!(
        printed("print({\"k\": 1, \"l\": [2]}, {})"),
        vec!["{\"k\": 1, \"l\": [2]}", "{}"]
    );
    assert_eq!(printed("print(divmod(7, 2))"), vec!["(3, 1)"]);
    assert_eq!(printed("print(case(true, [1]), case(false, 1))"), vec![
        "<case_result: [1]>",
        "<case_result: nil>",
    ]);
    assert_eq!(printed("print(0 - 9223372036854775807 - 1)"), vec!["-9223372036854775808"]);
}

#[test]
fn a_tuple_of_one_element_prints_with_a_comma() {
    let span = Span::new(0, 1);
    let one = Value::Tuple(vec![Value::Int(1)]);
    assert_eq!(show(&one.render()), "(1,)");
    assert_eq!(show(&Value::Tuple(vec![]).render()), "()");
    assert_eq!(show(&Value::Tuple(vec![Value::Int(1), float(2.0)]).render()), "(1, 2.0)");
    let expr = Expr::Tuple { elements: vec![integer(1)], span };
    let mut evaluation = Evaluator::new().evaluate_expression(&expr);
    assert_eq!(drive(&mut evaluation).1, Ok(one));
}

#[test]
fn a_literal_evaluates_to_its_value() {
    let span = Span::new(0, 1);
    let value = list(vec![Value::Int(1), float(0.5), text("x")]);
    let expr = Expr::Literal { value: list(vec![Value::Int(1), float(0.5), text("x")]), span };
    let mut evaluation = Evaluator::new().evaluate_expression(&expr);
    assert_eq!(drive(&mut evaluation).1, Ok(value));
    assert_eq!(eval("(((7)))"), Ok(Value::Int(7)));
    assert_eq!(eval("\"s\""), Ok(text("s")));
    assert_eq!(eval("3.25"), Ok(float(3.25)));
}

#[test]
fn an_evaluation_takes_one_step_at_a_time() {
    let program = run("print(1 + 2)").unwrap();
    let mut evaluation = Evaluator::new().evaluate_program(&program);
    let mut steps = 0;
    let mut lines = Vec::new();
    loop {
        assert!(steps < 100);
        steps += 1;
        match evaluation.step(Reply::Nothing) {
            Action::Continue => {}
            Action::Print(pieces) => lines.push(show(&pieces)),
            Action::Ask(_) => panic!("nothing to ask"),
            Action::Lost => panic!("the evaluation is lost"),
            Action::Done(result) => {
                assert_eq!(result, Ok(Value::Nil));
                break;
            }
        }
    }
    assert!(evaluation.is_finished());
    assert_eq!(lines, vec!["3"]);
    // The statement, the call, its callee, the choice of the function,
    // the argument, its two operands, the operator, the printing, the
    // dropping of the call's value, and the end.
    assert_eq!(steps, 11);
}

#[test]
fn a_budget_of_steps_ends_a_run() {
    let program = run("while (true) { }").unwrap();
    let mut evaluation = Evaluator::new().evaluate_program(&program);
    for _ in 0..10 {
        assert!(matches!(evaluation.run(Reply::Nothing, 1000), Action::Continue));
        assert!(!evaluation.is_finished());
    }
    assert!(matches!(evaluation.run(Reply::Nothing, 0), Action::Continue));
}

#[test]
fn a_missing_reply_ends_the_evaluation() {
    let program = run("x = 1 { y = 1.5 + 2 }").unwrap();
    let mut evaluation = Evaluator::new().evaluate_program(&program);
    let mut asked = false;
    for _ in 0..20 {
        match evaluation.step(Reply::Nothing) {
            Action::Ask(Request::Parse(text)) => {
                assert_eq!(text, "1.5");
                asked = true;
            }
            Action::Lost => {
                assert!(asked);
                assert!(evaluation.is_finished());
                // What it had bound is kept.
                assert_eq!(evaluation.into_evaluator().get("x"), Some(Value::Int(1)));
                return;
            }
            Action::Done(result) => panic!("{:?}", result),
            _ => {}
        }
    }
    panic!("the evaluation went on without a reply");
}

/// Takes steps, answering what is asked, up to the first request that
/// is chosen; answers that one with the given reply and returns the kind
/// of answer it asked for and what came of the reply.
fn answered_with(
    source: &str,
    chosen: fn(&Request<String>) -> bool,
    reply: Reply,
) -> (Answer, Action) {
    let program = run(source).unwrap();
    let mut evaluation = Evaluator::new().evaluate_program(&program);
    let mut next = Reply::Nothing;
    for _ in 0..200 {
        match evaluation.step(next) {
            Action::Ask(request) => {
                if chosen(&request) {
                    return (request.answer(), evaluation.step(reply));
                }
                next = answer(&request);
            }
            Action::Continue => next = Reply::Nothing,
            _ => panic!("the evaluation ended before the request"),
        }
    }
    panic!("the request was not made");
}

#[test]
fn a_reply_of_another_kind_ends_the_evaluation() {
    let two = double(2.0);
    let replies = [
        Reply::Nothing,
        Reply::Bool(true),
        Reply::Int(2),
        Reply::Double(two),
        Reply::Pair(two, two),
    ];
    let cases: [(&str, fn(&Request<String>) -> bool, Answer); 5] = [
        ("1.5", |r| matches!(r, Request::Parse(_)), Answer::Double),
        ("6 / 3", |r| matches!(r, Request::Arithmetic(..)), Answer::Double),
        ("1 < 2.5", |r| matches!(r, Request::Compare(..)), Answer::Bool),
        ("divmod(7.5, 2)", |r| matches!(r, Request::Divmod(..)), Answer::Pair),
        (
            "divmod(7, 2, round_mode=\"nearest\")",
            |r| matches!(r, Request::NearestQuotient(..)),
            Answer::Int,
        ),
    ];
    for (source, chosen, kind) in cases {
        for reply in replies {
            let (asked, action) = answered_with(source, chosen, reply);
            assert_eq!(asked, kind, "{}", source);
            assert_eq!(reply.fits(kind), !matches!(action, Action::Lost), "{} {:?}", source, reply);
            if reply.fits(kind) {
                assert!(matches!(action, Action::Continue), "{} {:?}", source, reply);
            }
        }
    }
    // Equality of an integer and a double is asked of the host as well,
    // and answered by a boolean.
    let (asked, action) = answered_with(
        "1 == 1.0",
        |r| matches!(r, Request::Compare(..)),
        Reply::Double(two),
    );
    assert_eq!(asked, Answer::Bool);
    assert!(matches!(action, Action::Lost));
}

#[test]
fn a_key_written_twice_is_bound_once() {
    assert_eq!(eval("len({\"a\": 1, \"a\": 2, \"b\": 3, \"a\": 4})"), Ok(Value::Int(2)));
    assert_eq!(eval("\"a\" in {\"a\": 1, \"a\": 2}"), Ok(Value::Bool(true)));
    // Inside a list and inside a case result as well.
    assert_eq!(
        eval("[{\"k\": 1, \"k\": 2}]"),
        Ok(list(vec![Value::Dict(vec![DictEntry { key: "k".to_string(), value: Value::Int(2) }])]))
    );
    // A name that is assigned twice is bound once.
    let (_, result, evaluator) = execute("x = 1 x = 2 { x = 3 y = 4 y = 5 }");
    assert!(result.is_ok());
    assert_eq!(evaluator.get("x"), Some(Value::Int(3)));
    assert_eq!(evaluator.get("y"), None);
}
