//! The operators and built-in functions on values.
use crate::ast::{BinaryOp, UnaryOp};
use crate::environment::{find, position};
use crate::error::{helpful_error, plain_error, BccError, ErrorKind, ErrorView, Span};
use crate::host::{Comparison, FloatOp, Number, Request, Rounding};
use crate::text::{
    concat2, concat3, concat4, contains, equal, occurs_in, owned, };
use crate::value::{
    double_is_zero, group_value_views, kind_name_of, truthy, value_views,
    CaseResult, Double, Value, ValueView,
};
use vstd::prelude::*;
use vstd::string::*;
use vstd::wrapping::i64_specs::{wrapping_add, wrapping_mul, wrapping_sub};

verus! {

broadcast use group_value_views;

/// What an operator or a built-in function comes to.
pub enum Operation<V, E, R> {
    /// A value.
    Value(V),
    /// A runtime error.
    Fail(E),
    /// A value that the host has to compute.
    Ask(R),
    /// Whether two values are equal, or, if `negate`, whether they differ.
    Equals { left: V, right: V, negate: bool },
    /// Whether `needle` equals one of the items.
    Search { needle: V, items: Seq<V> },
}

/// What an operation gives, over the contents of values.
pub type OperationView = Operation<ValueView, ErrorView, Request<Seq<char>>>;

/// What an operator or a built-in function comes to, as the evaluator
/// holds it.
pub enum Outcome {
    Value(Value),
    Fail(BccError),
    Ask(Request<String>),
    Equals { left: Value, right: Value, negate: bool },
    Search { needle: Value, items: Vec<Value> },
}

impl View for Outcome {
    type V = OperationView;

    open spec fn view(&self) -> OperationView {
        match self {
            Outcome::Value(v) => Operation::Value(v@),
            Outcome::Fail(e) => Operation::Fail(e@),
            Outcome::Ask(r) => Operation::Ask(r@),
            Outcome::Equals { left, right, negate } => Operation::Equals {
                left: left@,
                right: right@,
                negate: *negate,
            },
            Outcome::Search { needle, items } => Operation::Search {
                needle: needle@,
                items: value_views(items@),
            },
        }
    }
}

/// A runtime error without help.
pub open spec fn runtime(span: Span, message: Seq<char>) -> ErrorView {
    plain_error(ErrorKind::RuntimeError, span, message)
}

/// A runtime error with help.
pub open spec fn runtime_help(span: Span, message: Seq<char>, help: Seq<char>) -> ErrorView {
    helpful_error(ErrorKind::RuntimeError, span, message, help)
}

/// The number that a value holds, if it is a number.
pub open spec fn number_of(v: ValueView) -> Option<Number> {
    match v {
        ValueView::Int(n) => Some(Number::Int(n)),
        ValueView::Double(bits) => Some(Number::Double(Double { bits })),
        _ => None,
    }
}

/// Whether a number is the integer zero or a double that equals zero.
pub open spec fn is_zero_number(n: Number) -> bool {
    match n {
        Number::Int(i) => i == 0,
        Number::Double(d) => double_is_zero(d.bits),
    }
}

fn as_number(v: &Value) -> (n: Option<Number>)
    ensures
        n == number_of(v@),
{
    match v {
        Value::Int(n) => Some(Number::Int(*n)),
        Value::Double(d) => Some(Number::Double(*d)),
        _ => None,
    }
}

fn is_zero(n: Number) -> (b: bool)
    ensures
        b == is_zero_number(n),
{
    match n {
        Number::Int(i) => i == 0,
        Number::Double(d) => d.is_zero(),
    }
}

// ---------------------------------------------------------------------------
// Arithmetic
// ---------------------------------------------------------------------------
/// The word for an arithmetic operator in an error message.
pub open spec fn verb(op: FloatOp) -> Seq<char> {
    match op {
        FloatOp::Add => "add"@,
        FloatOp::Subtract => "subtract"@,
        FloatOp::Multiply => "multiply"@,
        FloatOp::Divide => "divide"@,
    }
}

/// The error for a division by zero.
pub open spec fn division_by_zero(span: Span) -> ErrorView {
    runtime(span, "Division by zero"@)
}

/// An arithmetic operator on two values: defined on numbers only.
/// Integers wrap around; division always gives a double; a double as
/// either operand makes the result a double.
pub open spec fn arithmetic(op: FloatOp, left: ValueView, right: ValueView, span: Span) -> OperationView {
    match (left, right) {
        (ValueView::Int(l), ValueView::Int(r)) => match op {
            FloatOp::Add => Operation::Value(ValueView::Int(wrapping_add(l, r))),
            FloatOp::Subtract => Operation::Value(ValueView::Int(wrapping_sub(l, r))),
            FloatOp::Multiply => Operation::Value(ValueView::Int(wrapping_mul(l, r))),
            FloatOp::Divide => if r == 0 {
                Operation::Fail(division_by_zero(span))
            } else {
                Operation::Ask(Request::Arithmetic(op, Number::Int(l), Number::Int(r)))
            },
        },
        _ => match (number_of(left), number_of(right)) {
            (Some(l), Some(r)) => if op == FloatOp::Divide && is_zero_number(r) {
                Operation::Fail(division_by_zero(span))
            } else {
                Operation::Ask(Request::Arithmetic(op, l, r))
            },
            _ => Operation::Fail(cannot(op, left, right, span)),
        },
    }
}

/// The error for an arithmetic operator on values that are not numbers.
pub open spec fn cannot(op: FloatOp, left: ValueView, right: ValueView, span: Span) -> ErrorView {
    runtime(
        span,
        "Cannot "@ + verb(op) + " "@ + kind_name_of(left) + " and "@ + kind_name_of(right),
    )
}

fn verb_text(op: FloatOp) -> (text: &'static str)
    ensures
        text@ == verb(op),
{
    match op {
        FloatOp::Add => "add",
        FloatOp::Subtract => "subtract",
        FloatOp::Multiply => "multiply",
        FloatOp::Divide => "divide",
    }
}

fn cannot_error(op: FloatOp, left: &Value, right: &Value, span: Span) -> (e: BccError)
    ensures
        e@ == cannot(op, left@, right@, span),
{
    let mut message = concat3("Cannot ", verb_text(op), " ");
    message.append(left.kind_name());
    message.append(" and ");
    message.append(right.kind_name());
    BccError::runtime_error(span, message)
}

fn evaluate_arithmetic(op: FloatOp, left: Value, right: Value, span: Span) -> (outcome: Outcome)
    ensures
        outcome@ == arithmetic(op, left@, right@, span),
{
    match (&left, &right) {
        (Value::Int(l), Value::Int(r)) => {
            let (l, r) = (*l, *r);
            match op {
                FloatOp::Add => Outcome::Value(Value::Int(l.wrapping_add(r))),
                FloatOp::Subtract => Outcome::Value(Value::Int(l.wrapping_sub(r))),
                FloatOp::Multiply => Outcome::Value(Value::Int(l.wrapping_mul(r))),
                FloatOp::Divide => {
                    if r == 0 {
                        Outcome::Fail(
                            BccError::runtime_error(span, owned("Division by zero")),
                        )
                    } else {
                        Outcome::Ask(Request::Arithmetic(op, Number::Int(l), Number::Int(r)))
                    }
                },
            }
        },
        _ => {
            match (as_number(&left), as_number(&right)) {
                (Some(l), Some(r)) => {
                    let dividing = match op {
                        FloatOp::Divide => true,
                        _ => false,
                    };
                    if dividing && is_zero(r) {
                        Outcome::Fail(
                            BccError::runtime_error(span, owned("Division by zero")),
                        )
                    } else {
                        Outcome::Ask(Request::Arithmetic(op, l, r))
                    }
                },
                _ => Outcome::Fail(cannot_error(op, &left, &right, span)),
            }
        },
    }
}

// ---------------------------------------------------------------------------
// Comparison
// ---------------------------------------------------------------------------
/// A comparison of two integers.
pub open spec fn compare_ints(op: Comparison, l: i64, r: i64) -> bool {
    match op {
        Comparison::Equal => l == r,
        Comparison::Less => l < r,
        Comparison::LessEqual => l <= r,
        Comparison::Greater => l > r,
        Comparison::GreaterEqual => l >= r,
    }
}

/// The error for an ordering operator on values that are not numbers.
pub open spec fn cannot_compare(left: ValueView, right: ValueView, span: Span) -> ErrorView {
    runtime(span, "Cannot compare "@ + kind_name_of(left) + " and "@ + kind_name_of(right))
}

/// An ordering operator on two values: defined on numbers only.
pub open spec fn ordering(op: Comparison, left: ValueView, right: ValueView, span: Span) -> OperationView {
    match (left, right) {
        (ValueView::Int(l), ValueView::Int(r)) => Operation::Value(
            ValueView::Bool(compare_ints(op, l, r)),
        ),
        _ => match (number_of(left), number_of(right)) {
            (Some(l), Some(r)) => Operation::Ask(Request::Compare(op, l, r)),
            _ => Operation::Fail(cannot_compare(left, right, span)),
        },
    }
}

fn evaluate_ordering(op: Comparison, left: Value, right: Value, span: Span) -> (outcome: Outcome)
    ensures
        outcome@ == ordering(op, left@, right@, span),
{
    match (&left, &right) {
        (Value::Int(l), Value::Int(r)) => {
            let (l, r) = (*l, *r);
            let holds = match op {
                Comparison::Equal => l == r,
                Comparison::Less => l < r,
                Comparison::LessEqual => l <= r,
                Comparison::Greater => l > r,
                Comparison::GreaterEqual => l >= r,
            };
            Outcome::Value(Value::Bool(holds))
        },
        _ => {
            match (as_number(&left), as_number(&right)) {
                (Some(l), Some(r)) => Outcome::Ask(Request::Compare(op, l, r)),
                _ => {
                    let message = concat4(
                        "Cannot compare ",
                        left.kind_name(),
                        " and ",
                        right.kind_name(),
                    );
                    Outcome::Fail(BccError::runtime_error(span, message))
                },
            }
        },
    }
}

// ---------------------------------------------------------------------------
// Membership
// ---------------------------------------------------------------------------
/// The operator `in`: a search through a list or a tuple, a key of a
/// dictionary, or a part of a string.
pub open spec fn membership(left: ValueView, right: ValueView, span: Span) -> OperationView {
    match right {
        ValueView::List(items) => Operation::Search { needle: left, items },
        ValueView::Tuple(items) => Operation::Search { needle: left, items },
        ValueView::Dict(entries) => match left {
            ValueView::String(key) => Operation::Value(
                ValueView::Bool(position(entries, key, 0) is Some),
            ),
            _ => Operation::Fail(
                runtime_help(
                    span,
                    "Dictionary key lookup requires a string, got "@ + kind_name_of(left),
                    "Use 'in' with dictionaries like: \"key\" in {\"key\": \"value\"}. Only string keys are supported."@,
                ),
            ),
        },
        ValueView::String(whole) => match left {
            ValueView::String(part) => Operation::Value(ValueView::Bool(occurs_in(whole, part))),
            _ => Operation::Fail(
                runtime_help(
                    span,
                    "String containment check requires a string, got "@ + kind_name_of(left),
                    "Use 'in' with strings like: \"sub\" in \"substring\". Both values must be strings."@,
                ),
            ),
        },
        _ => Operation::Fail(
            runtime_help(
                span,
                "'in' operator not supported for type "@ + kind_name_of(right),
                "The 'in' operator works with lists, tuples, dictionaries, and strings. Examples: item in [1, 2, 3], item in (1, 2, 3), \"key\" in {\"key\": \"value\"}, \"sub\" in \"substring\"."@,
            ),
        ),
    }
}

/// Applies `in` to two values.
pub fn evaluate_in_operation(left: Value, right: Value, span: Span) -> (outcome: Outcome)
    ensures
        outcome@ == membership(left@, right@, span),
{
    match right {
        Value::List(items) => Outcome::Search { needle: left, items },
        Value::Tuple(items) => Outcome::Search { needle: left, items },
        Value::Dict(entries) => {
            match &left {
                Value::String(key) => {
                    let found = find(&entries, key.as_str());
                    Outcome::Value(Value::Bool(found.is_some()))
                },
                _ => Outcome::Fail(
                    BccError::runtime_error_with_help(
                        span,
                        concat2("Dictionary key lookup requires a string, got ", left.kind_name()),
                        owned(
                            "Use 'in' with dictionaries like: \"key\" in {\"key\": \"value\"}. Only string keys are supported.",
                        ),
                    ),
                ),
            }
        },
        Value::String(whole) => {
            match &left {
                Value::String(part) => Outcome::Value(
                    Value::Bool(contains(whole.as_str(), part.as_str())),
                ),
                _ => Outcome::Fail(
                    BccError::runtime_error_with_help(
                        span,
                        concat2(
                            "String containment check requires a string, got ",
                            left.kind_name(),
                        ),
                        owned(
                            "Use 'in' with strings like: \"sub\" in \"substring\". Both values must be strings.",
                        ),
                    ),
                ),
            }
        },
        _ => Outcome::Fail(
            BccError::runtime_error_with_help(
                span,
                concat2("'in' operator not supported for type ", right.kind_name()),
                owned(
                    "The 'in' operator works with lists, tuples, dictionaries, and strings. Examples: item in [1, 2, 3], item in (1, 2, 3), \"key\" in {\"key\": \"value\"}, \"sub\" in \"substring\".",
                ),
            ),
        ),
    }
}

// ---------------------------------------------------------------------------
// Binary and unary operators
// ---------------------------------------------------------------------------
/// A binary operator on two values.
pub open spec fn binary(op: BinaryOp, left: ValueView, right: ValueView, span: Span) -> OperationView {
    match op {
        BinaryOp::Add => arithmetic(FloatOp::Add, left, right, span),
        BinaryOp::Subtract => arithmetic(FloatOp::Subtract, left, right, span),
        BinaryOp::Multiply => arithmetic(FloatOp::Multiply, left, right, span),
        BinaryOp::Divide => arithmetic(FloatOp::Divide, left, right, span),
        BinaryOp::Equal => Operation::Equals { left, right, negate: false },
        BinaryOp::NotEqual => Operation::Equals { left, right, negate: true },
        BinaryOp::Less => ordering(Comparison::Less, left, right, span),
        BinaryOp::LessEqual => ordering(Comparison::LessEqual, left, right, span),
        BinaryOp::Greater => ordering(Comparison::Greater, left, right, span),
        BinaryOp::GreaterEqual => ordering(Comparison::GreaterEqual, left, right, span),
        BinaryOp::In => membership(left, right, span),
    }
}

/// Applies a binary operator to two values: gives the result, an error, or
/// the question to put to the host where doubles are involved.
pub fn evaluate_binary_op(op: BinaryOp, left: Value, right: Value, span: Span) -> (outcome:
    Outcome)
    ensures
        outcome@ == binary(op, left@, right@, span),
{
    match op {
        BinaryOp::Add => evaluate_arithmetic(FloatOp::Add, left, right, span),
        BinaryOp::Subtract => evaluate_arithmetic(FloatOp::Subtract, left, right, span),
        BinaryOp::Multiply => evaluate_arithmetic(FloatOp::Multiply, left, right, span),
        BinaryOp::Divide => evaluate_arithmetic(FloatOp::Divide, left, right, span),
        BinaryOp::Equal => Outcome::Equals { left, right, negate: false },
        BinaryOp::NotEqual => Outcome::Equals { left, right, negate: true },
        BinaryOp::Less => evaluate_ordering(Comparison::Less, left, right, span),
        BinaryOp::LessEqual => evaluate_ordering(Comparison::LessEqual, left, right, span),
        BinaryOp::Greater => evaluate_ordering(Comparison::Greater, left, right, span),
        BinaryOp::GreaterEqual => evaluate_ordering(Comparison::GreaterEqual, left, right, span),
        BinaryOp::In => evaluate_in_operation(left, right, span),
    }
}

/// The bits of the negated double: the sign bit is flipped.
pub open spec fn negated_bits(bits: u64) -> u64 {
    bits ^ 0x8000_0000_0000_0000
}

/// A unary operator on a value: `-` negates a number, `!` and `not`
/// negate the truth of any value.
pub open spec fn unary(op: UnaryOp, operand: ValueView, span: Span) -> Result<ValueView, ErrorView> {
    match op {
        UnaryOp::Negate => match operand {
            ValueView::Int(n) => Ok(ValueView::Int(wrapping_sub(0, n))),
            ValueView::Double(bits) => Ok(ValueView::Double(negated_bits(bits))),
            _ => Err(runtime(span, "Cannot negate "@ + kind_name_of(operand))),
        },
        UnaryOp::Not => Ok(ValueView::Bool(!truthy(operand))),
    }
}

/// Applies a unary operator to a value.
pub fn evaluate_unary_op(op: UnaryOp, operand: Value, span: Span) -> (result: Result<
    Value,
    BccError,
>)
    ensures
        match result {
            Ok(v) => unary(op, operand@, span) == Ok::<ValueView, ErrorView>(v@),
            Err(e) => unary(op, operand@, span) == Err::<ValueView, ErrorView>(e@),
        },
{
    match op {
        UnaryOp::Negate => match operand {
            Value::Int(n) => Ok(Value::Int(0i64.wrapping_sub(n))),
            Value::Double(d) => Ok(
                Value::Double(Double { bits: d.bits ^ 0x8000_0000_0000_0000 }),
            ),
            _ => Err(
                BccError::runtime_error(span, concat2("Cannot negate ", operand.kind_name())),
            ),
        },
        UnaryOp::Not => Ok(Value::Bool(!operand.is_truthy())),
    }
}

// ---------------------------------------------------------------------------
// Equality
// ---------------------------------------------------------------------------
/// What comparing two values for equality comes to, one level deep.
pub enum Pairing<V> {
    Equal,
    Unequal,
    /// The host decides: a double is involved.
    Numbers(Number, Number),
    /// Two lists or two tuples of one length: they are equal if their
    /// elements are, pair by pair.
    Elements(Seq<V>, Seq<V>),
}

/// Equality of two values, one level deep. Numbers compare by value, an
/// integer and a double as doubles; lists compare with lists and tuples
/// with tuples, element by element; dictionaries never equal anything.
pub open spec fn pairing(left: ValueView, right: ValueView) -> Pairing<ValueView> {
    match (left, right) {
        (ValueView::Nil, ValueView::Nil) => Pairing::Equal,
        (ValueView::Bool(l), ValueView::Bool(r)) => if l == r {
            Pairing::Equal
        } else {
            Pairing::Unequal
        },
        (ValueView::Int(l), ValueView::Int(r)) => if l == r {
            Pairing::Equal
        } else {
            Pairing::Unequal
        },
        (ValueView::String(l), ValueView::String(r)) => if l == r {
            Pairing::Equal
        } else {
            Pairing::Unequal
        },
        (ValueView::List(l), ValueView::List(r)) => if l.len() != r.len() {
            Pairing::Unequal
        } else {
            Pairing::Elements(l, r)
        },
        (ValueView::Tuple(l), ValueView::Tuple(r)) => if l.len() != r.len() {
            Pairing::Unequal
        } else {
            Pairing::Elements(l, r)
        },
        _ => match (number_of(left), number_of(right)) {
            (Some(l), Some(r)) => Pairing::Numbers(l, r),
            _ => Pairing::Unequal,
        },
    }
}

/// What comparing two values comes to, as the evaluator holds it.
pub enum Paired {
    Equal,
    Unequal,
    Numbers(Number, Number),
    Elements(Vec<Value>, Vec<Value>),
}

impl View for Paired {
    type V = Pairing<ValueView>;

    open spec fn view(&self) -> Pairing<ValueView> {
        match self {
            Paired::Equal => Pairing::Equal,
            Paired::Unequal => Pairing::Unequal,
            Paired::Numbers(l, r) => Pairing::Numbers(*l, *r),
            Paired::Elements(l, r) => Pairing::Elements(value_views(l@), value_views(r@)),
        }
    }
}

/// Compares two values for equality, as far as it can be decided without
/// the host: what is left is a comparison of numbers.
pub fn is_equal(left: Value, right: Value) -> (paired: Paired)
    ensures
        paired@ == pairing(left@, right@),
{
    match (left, right) {
        (Value::Nil, Value::Nil) => Paired::Equal,
        (Value::Bool(l), Value::Bool(r)) => if l == r {
            Paired::Equal
        } else {
            Paired::Unequal
        },
        (Value::Int(l), Value::Int(r)) => if l == r {
            Paired::Equal
        } else {
            Paired::Unequal
        },
        (Value::String(l), Value::String(r)) => if equal(l.as_str(), r.as_str()) {
            Paired::Equal
        } else {
            Paired::Unequal
        },
        (Value::List(l), Value::List(r)) => if l.len() != r.len() {
            Paired::Unequal
        } else {
            Paired::Elements(l, r)
        },
        (Value::Tuple(l), Value::Tuple(r)) => if l.len() != r.len() {
            Paired::Unequal
        } else {
            Paired::Elements(l, r)
        },
        (Value::Int(l), Value::Double(r)) => Paired::Numbers(Number::Int(l), Number::Double(r)),
        (Value::Double(l), Value::Int(r)) => Paired::Numbers(Number::Double(l), Number::Int(r)),
        (Value::Double(l), Value::Double(r)) => Paired::Numbers(
            Number::Double(l),
            Number::Double(r),
        ),
        _ => Paired::Unequal,
    }
}

// ---------------------------------------------------------------------------
// Built-in functions
// ---------------------------------------------------------------------------
/// A count as an integer value.
pub open spec fn count_value(n: nat) -> ValueView {
    if n <= i64::MAX {
        ValueView::Int(n as i64)
    } else {
        ValueView::Int(i64::MAX)
    }
}

fn count(n: usize) -> (v: Value)
    ensures
        v@ == count_value(n as nat),
{
    if (n as u64) <= 0x7fff_ffff_ffff_ffff {
        Value::Int(n as i64)
    } else {
        Value::Int(i64::MAX)
    }
}

/// The built-in `len`: the number of characters of a string, of items of
/// a list, of entries of a dictionary.
pub open spec fn length(v: ValueView, span: Span) -> Result<ValueView, ErrorView> {
    match v {
        ValueView::String(s) => Ok(count_value(s.len())),
        ValueView::List(items) => Ok(count_value(items.len())),
        ValueView::Dict(entries) => Ok(count_value(entries.len())),
        _ => Err(
            runtime_help(
                span,
                "len() not supported for type "@ + kind_name_of(v),
                "len() only works with strings, lists, and dictionaries."@,
            ),
        ),
    }
}

/// The built-in `len`: the number of characters, items or entries.
pub fn builtin_len(v: Value, span: Span) -> (result: Result<Value, BccError>)
    ensures
        match result {
            Ok(n) => length(v@, span) == Ok::<ValueView, ErrorView>(n@),
            Err(e) => length(v@, span) == Err::<ValueView, ErrorView>(e@),
        },
{
    match &v {
        Value::String(s) => Ok(count(s.as_str().unicode_len())),
        Value::List(items) => Ok(count(items.len())),
        Value::Dict(entries) => Ok(count(entries.len())),
        _ => Err(
            BccError::runtime_error_with_help(
                span,
                concat2("len() not supported for type ", v.kind_name()),
                owned("len() only works with strings, lists, and dictionaries."),
            ),
        ),
    }
}

/// The built-in `type`: the name of the value's type.
pub fn builtin_type(v: Value) -> (name: Value)
    ensures
        name@ == ValueView::String(kind_name_of(v@)),
{
    Value::String(owned(v.kind_name()))
}

/// The property `result` of what `case` produced.
pub open spec fn property(v: ValueView, name: Seq<char>, span: Span) -> Result<
    ValueView,
    ErrorView,
> {
    match v {
        ValueView::CaseResult(inner) => if name == "result"@ {
            Ok(*inner)
        } else {
            Err(
                runtime_help(
                    span,
                    "Unknown property '"@ + name + "' on case_result"@,
                    "case_result objects only have a 'result' property."@,
                ),
            )
        },
        _ => Err(
            runtime_help(
                span,
                "Property access not supported for type "@ + kind_name_of(v),
                "Property access is currently only supported for case_result objects."@,
            ),
        ),
    }
}

/// Reads a property of a value.
pub fn property_access(v: Value, name: &str, span: Span) -> (result: Result<Value, BccError>)
    ensures
        match result {
            Ok(p) => property(v@, name@, span) == Ok::<ValueView, ErrorView>(p@),
            Err(e) => property(v@, name@, span) == Err::<ValueView, ErrorView>(e@),
        },
{
    match v {
        Value::CaseResult(case) => {
            if equal(name, "result") {
                Ok(*case.result)
            } else {
                Err(
                    BccError::runtime_error_with_help(
                        span,
                        concat3("Unknown property '", name, "' on case_result"),
                        owned("case_result objects only have a 'result' property."),
                    ),
                )
            }
        },
        _ => Err(
            BccError::runtime_error_with_help(
                span,
                concat2("Property access not supported for type ", v.kind_name()),
                owned("Property access is currently only supported for case_result objects."),
            ),
        ),
    }
}

// ---------------------------------------------------------------------------
// divmod
// ---------------------------------------------------------------------------
/// The absolute value of an integer.
pub open spec fn magnitude(a: int) -> int {
    if a < 0 {
        -a
    } else {
        a
    }
}

/// The quotient of integers, rounded toward zero: the quotient of the
/// magnitudes, negative where the signs differ.
pub open spec fn truncated_quotient(a: int, b: int) -> int {
    if (a < 0) == (b < 0) {
        magnitude(a) / magnitude(b)
    } else {
        -(magnitude(a) / magnitude(b))
    }
}

/// Division of 64-bit integers, rounded toward zero; the one quotient
/// that does not fit, of the least integer by -1, wraps around to the
/// least integer.
pub open spec fn divided(a: i64, b: i64) -> i64 {
    if a == i64::MIN && b == -1 {
        i64::MIN
    } else {
        truncated_quotient(a as int, b as int) as i64
    }
}

/// What is left of `a` when `q` times `b` is taken away, wrapping around.
pub open spec fn left_over(a: i64, q: i64, b: i64) -> i64 {
    wrapping_sub(a, wrapping_mul(q, b))
}

fn magnitude_of(a: i64) -> (m: u64)
    ensures
        m == magnitude(a as int),
{
    if a >= 0 {
        a as u64
    } else {
        (-(a + 1)) as u64 + 1
    }
}

fn divide(a: i64, b: i64) -> (q: i64)
    requires
        b != 0,
    ensures
        q == divided(a, b),
{
    let m = magnitude_of(a) / magnitude_of(b);
    assert(m <= magnitude(a as int)) by (nonlinear_arith)
        requires
            m == magnitude(a as int) / magnitude(b as int),
            magnitude(b as int) >= 1,
            magnitude(a as int) >= 0,
    ;
    if (a < 0) == (b < 0) {
        if m > 0x7fff_ffff_ffff_ffff {
            assert(magnitude(b as int) == 1) by (nonlinear_arith)
                requires
                    m == magnitude(a as int) / magnitude(b as int),
                    magnitude(b as int) >= 1,
                    magnitude(a as int) <= 0x8000_0000_0000_0000,
                    m > 0x7fff_ffff_ffff_ffff,
            ;
            i64::MIN
        } else {
            m as i64
        }
    } else {
        if m > 0x7fff_ffff_ffff_ffff {
            i64::MIN
        } else {
            -(m as i64)
        }
    }
}

fn remainder(a: i64, q: i64, b: i64) -> (r: i64)
    ensures
        r == left_over(a, q, b),
{
    a.wrapping_sub(q.wrapping_mul(b))
}

/// The rounding mode that a text names.
pub open spec fn rounding_of(mode: Seq<char>) -> Option<Rounding> {
    if mode == "down"@ {
        Some(Rounding::Down)
    } else if mode == "up"@ {
        Some(Rounding::Up)
    } else if mode == "nearest"@ {
        Some(Rounding::Nearest)
    } else {
        None
    }
}

fn rounding_from(mode: &str) -> (rounding: Option<Rounding>)
    ensures
        rounding == rounding_of(mode@),
{
    if equal(mode, "down") {
        Some(Rounding::Down)
    } else if equal(mode, "up") {
        Some(Rounding::Up)
    } else if equal(mode, "nearest") {
        Some(Rounding::Nearest)
    } else {
        None
    }
}

/// The tuple of a quotient and a remainder.
pub open spec fn pair_of(q: i64, r: i64) -> ValueView {
    ValueView::Tuple(seq![ValueView::Int(q), ValueView::Int(r)])
}

/// The quotient of two integers rounded up, by the rule of the language:
/// where the operands have the same sign or the dividend is zero, the
/// dividend is raised by the divisor less one before the division.
pub open spec fn quotient_up(a: i64, b: i64) -> i64 {
    if wrapping_mul(a, b) >= 0 {
        divided(wrapping_sub(wrapping_add(a, b), 1), b)
    } else {
        divided(a, b)
    }
}

/// The error for a rounding mode that is not known.
pub open spec fn unknown_mode(mode: Seq<char>, span: Span) -> ErrorView {
    runtime_help(
        span,
        "Unknown rounding mode '"@ + mode + "'"@,
        "Valid rounding modes: \"down\", \"up\", \"nearest\""@,
    )
}

/// The built-in `divmod`: quotient and remainder of two numbers under a
/// rounding mode.
pub open spec fn divmod(dividend: ValueView, divisor: ValueView, mode: Seq<char>, span: Span) -> OperationView {
    match (dividend, divisor) {
        (ValueView::Int(a), ValueView::Int(b)) => if b == 0 {
            Operation::Fail(division_by_zero(span))
        } else {
            match rounding_of(mode) {
                Some(Rounding::Down) => Operation::Value(
                    pair_of(divided(a, b), left_over(a, divided(a, b), b)),
                ),
                Some(Rounding::Up) => Operation::Value(
                    pair_of(quotient_up(a, b), left_over(a, quotient_up(a, b), b)),
                ),
                Some(Rounding::Nearest) => Operation::Ask(Request::NearestQuotient(a, b)),
                None => Operation::Fail(unknown_mode(mode, span)),
            }
        },
        _ => match (number_of(dividend), number_of(divisor)) {
            (Some(a), Some(b)) => if is_zero_number(b) {
                Operation::Fail(division_by_zero(span))
            } else {
                match rounding_of(mode) {
                    Some(rounding) => Operation::Ask(Request::Divmod(rounding, a, b)),
                    None => Operation::Fail(unknown_mode(mode, span)),
                }
            },
            _ => Operation::Fail(
                runtime_help(
                    span,
                    "divmod() not supported for types "@ + kind_name_of(dividend) + " and "@
                        + kind_name_of(divisor),
                    "divmod() only works with numbers (int and double)."@,
                ),
            ),
        },
    }
}

fn pair(q: i64, r: i64) -> (v: Value)
    ensures
        v@ == pair_of(q, r),
{
    let mut items: Vec<Value> = Vec::new();
    items.push(Value::Int(q));
    items.push(Value::Int(r));
    assert(value_views(items@) =~= seq![ValueView::Int(q), ValueView::Int(r)]);
    Value::Tuple(items)
}

fn unknown_mode_error(mode: &str, span: Span) -> (e: BccError)
    ensures
        e@ == unknown_mode(mode@, span),
{
    BccError::runtime_error_with_help(
        span,
        concat3("Unknown rounding mode '", mode, "'"),
        owned("Valid rounding modes: \"down\", \"up\", \"nearest\""),
    )
}

/// The built-in `divmod`: quotient and remainder under a rounding mode.
pub fn builtin_divmod(dividend: Value, divisor: Value, round_mode: &str, span: Span) -> (outcome:
    Outcome)
    ensures
        outcome@ == divmod(dividend@, divisor@, round_mode@, span),
{
    match (&dividend, &divisor) {
        (Value::Int(a), Value::Int(b)) => {
            let (a, b) = (*a, *b);
            if b == 0 {
                return Outcome::Fail(BccError::runtime_error(span, owned("Division by zero")));
            }
            match rounding_from(round_mode) {
                Some(Rounding::Down) => {
                    let q = divide(a, b);
                    Outcome::Value(pair(q, remainder(a, q, b)))
                },
                Some(Rounding::Up) => {
                    let q = if a.wrapping_mul(b) >= 0 {
                        divide(a.wrapping_add(b).wrapping_sub(1), b)
                    } else {
                        divide(a, b)
                    };
                    Outcome::Value(pair(q, remainder(a, q, b)))
                },
                Some(Rounding::Nearest) => Outcome::Ask(Request::NearestQuotient(a, b)),
                None => Outcome::Fail(unknown_mode_error(round_mode, span)),
            }
        },
        _ => {
            match (as_number(&dividend), as_number(&divisor)) {
                (Some(a), Some(b)) => {
                    if is_zero(b) {
                        return Outcome::Fail(
                            BccError::runtime_error(span, owned("Division by zero")),
                        );
                    }
                    match rounding_from(round_mode) {
                        Some(rounding) => Outcome::Ask(Request::Divmod(rounding, a, b)),
                        None => Outcome::Fail(unknown_mode_error(round_mode, span)),
                    }
                },
                _ => {
                    let message = concat4(
                        "divmod() not supported for types ",
                        dividend.kind_name(),
                        " and ",
                        divisor.kind_name(),
                    );
                    Outcome::Fail(
                        BccError::runtime_error_with_help(
                            span,
                            message,
                            owned("divmod() only works with numbers (int and double)."),
                        ),
                    )
                },
            }
        },
    }
}

} // verus!
