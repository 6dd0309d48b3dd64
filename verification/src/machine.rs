//! The evaluation of programs, as a machine that takes one step at a time.
//!
//! A state holds the scopes, the work that is left, and the values
//! computed so far. A step takes the work on top and does it: it changes
//! the state and tells the host what to do next. The evaluator is proved
//! to take exactly these steps.
use crate::ast::{AssignTarget, BinaryOp, Expr, LogicalOp, Stmt, UnaryOp};
use crate::display::{rendered, Pieces};
use crate::environment::{assigned, lookup, put, Scopes};
use crate::error::{ErrorView, Span};
use crate::host::{asked, fitting, Answer, Comparison, Reply, Request};
use crate::operations::{
    binary, divmod, left_over, length, pair_of, pairing, property, runtime, runtime_help, unary,
    Operation, Pairing,
};
use crate::text::{decimal, replaced};
use crate::value::{kind_name_of, truthy, Double, ValueView};
use vstd::prelude::*;

verus! {

/// A piece of work.
pub enum Work<'a> {
    /// Evaluate the expression: its value is added to the values.
    Eval(&'a Expr),
    /// Go on with the expression at the given stage, after what it
    /// consists of was evaluated.
    Then(&'a Expr, usize),
    /// Execute the statement.
    Exec(&'a Stmt),
    /// Go on with the statement at the given stage.
    ThenStmt(&'a Stmt, usize),
    /// Drop the last value.
    Discard,
    /// Close the innermost scope.
    CloseScope,
    /// Call what the last value names with the arguments.
    Call { args: &'a Vec<Expr>, span: Span },
    /// Print the last value, then the arguments from `next` on.
    Print { args: &'a Vec<Expr>, next: usize },
    /// The length of the last value.
    Len { span: Span },
    /// The name of the type of the last value.
    TypeOf,
    /// The last value is condition `index` of `case`.
    Case { args: &'a Vec<Expr>, index: usize },
    /// Wrap the last value as the result of `case`.
    Wrap,
    /// Add the default rounding mode to the values.
    Mode,
    /// `divmod` of the last three values: dividend, divisor and mode.
    Divmod { span: Span },
    /// Go through the keyword arguments of `divmod` from `index` on.
    Keyword { call: &'a Expr, index: usize },
    /// The last value is keyword argument `index` of `divmod`.
    KeywordValue { call: &'a Expr, index: usize },
    /// Compare the last `pairs` pairs of values: the result is true if
    /// every pair is equal.
    Equal { pairs: usize },
    /// The host says whether a pair of numbers is equal; `pairs` pairs
    /// are left to compare.
    Verdict { pairs: usize },
    /// Replace the last value, a boolean, by its opposite.
    Negate,
    /// Look for the needle among the last `items` values; the needle
    /// is the value before them.
    Member { items: usize },
    /// The last value says whether the needle was found; `items` values
    /// are left to look at.
    Found { items: usize },
    /// The host's reply, which is to be of the given kind, is added to
    /// the values.
    Reply(Answer),
    /// The host's reply is the quotient of `a` by `b`, to which the
    /// remainder is added.
    Quotient { a: i64, b: i64 },
}

/// The state of an evaluation.
pub struct State<'a> {
    /// The scopes, outermost first.
    pub scopes: Scopes,
    /// The work that is left; the last piece is done next.
    pub work: Seq<Work<'a>>,
    /// The values computed and not yet used.
    pub values: Seq<ValueView>,
}

/// What the host is to do after a step.
pub enum Act<P, R, V, E> {
    /// Take the next step.
    Continue,
    /// Write the pieces and a line end, then take the next step.
    Print(P),
    /// Compute what is asked, then take the next step with the answer.
    Ask(R),
    /// The evaluation has ended, with a value or a runtime error.
    Done(Result<V, E>),
    /// The evaluation cannot go on: the reply is none that answers the
    /// request, or the state is none that an evaluation reaches.
    Lost,
}

/// An action over the contents of values.
pub type ActView = Act<Pieces, Request<Seq<char>>, ValueView, ErrorView>;

/// The outcome of a step.
pub struct Stepped<'a> {
    pub state: State<'a>,
    pub action: ActView,
}

// ---------------------------------------------------------------------------
// Building blocks
// ---------------------------------------------------------------------------
/// A step that needs nothing of the host.
pub open spec fn go<'a>(state: State<'a>) -> Stepped<'a> {
    Stepped { state, action: Act::Continue }
}

/// The state with one more piece of work planned.
pub open spec fn with_work<'a>(s: State<'a>, w: Work<'a>) -> State<'a> {
    State { work: s.work.push(w), ..s }
}

/// The state with one more value.
pub open spec fn with_value<'a>(s: State<'a>, v: ValueView) -> State<'a> {
    State { values: s.values.push(v), ..s }
}

/// The state without its last `n` values.
pub open spec fn without<'a>(s: State<'a>, n: int) -> State<'a> {
    State { values: s.values.subrange(0, s.values.len() - n), ..s }
}

/// The `k`-th value from the end, counting from zero.
pub open spec fn from_end<'a>(s: State<'a>, k: int) -> ValueView {
    s.values[s.values.len() - 1 - k]
}

/// The number of scopes that the work would still close.
pub open spec fn closes<'a>(work: Seq<Work<'a>>) -> nat
    decreases work.len(),
{
    if work.len() == 0 {
        0
    } else {
        closes(work.drop_last()) + if work.last() is CloseScope {
            1nat
        } else {
            0nat
        }
    }
}

/// The scopes without the innermost one, unless it is the only one.
pub open spec fn closed(scopes: Scopes) -> Scopes {
    if scopes.len() > 1 {
        scopes.drop_last()
    } else {
        scopes
    }
}

/// The scopes after the `n` innermost ones are closed.
pub open spec fn unwound(scopes: Scopes, n: nat) -> Scopes
    decreases n,
{
    if n == 0 {
        scopes
    } else {
        unwound(closed(scopes), (n - 1) as nat)
    }
}

/// The state in which an evaluation ends early: the scopes that blocks
/// opened are closed, work and values are dropped.
pub open spec fn stopped<'a>(s: State<'a>) -> State<'a> {
    State {
        scopes: unwound(s.scopes, closes(s.work)),
        work: Seq::empty(),
        values: Seq::empty(),
    }
}

/// An evaluation ends with an error.
pub open spec fn failed<'a>(s: State<'a>, e: ErrorView) -> Stepped<'a> {
    Stepped { state: stopped(s), action: Act::Done(Err(e)) }
}

/// An evaluation cannot go on: a value or a reply that the work on top
/// needs is missing.
pub open spec fn corrupt<'a>(s: State<'a>) -> Stepped<'a> {
    Stepped { state: stopped(s), action: Act::Lost }
}

/// The error for a count of values that does not fit the machine.
pub open spec fn crowded() -> ErrorView {
    runtime(Span { start: 0, end: 0 }, "Too many values"@)
}

/// The result of an operation enters the state.
pub open spec fn settle<'a>(s: State<'a>, result: Result<ValueView, ErrorView>) -> Stepped<'a> {
    match result {
        Ok(v) => go(with_value(s, v)),
        Err(e) => failed(s, e),
    }
}

/// The evaluations of the expressions, the first on top.
pub open spec fn evaluations<'a>(exprs: &'a Vec<Expr>) -> Seq<Work<'a>> {
    Seq::new(exprs@.len(), |i: int| Work::Eval(&exprs@[exprs@.len() - 1 - i]))
}

/// The executions of the statements, the first on top.
pub open spec fn executions<'a>(stmts: &'a Vec<Stmt>) -> Seq<Work<'a>> {
    Seq::new(stmts@.len(), |i: int| Work::Exec(&stmts@[stmts@.len() - 1 - i]))
}

// ---------------------------------------------------------------------------
// Names
// ---------------------------------------------------------------------------
pub open spec fn print_marker() -> Seq<char> {
    "__builtin_print__"@
}

pub open spec fn len_marker() -> Seq<char> {
    "__builtin_len__"@
}

pub open spec fn type_marker() -> Seq<char> {
    "__builtin_type__"@
}

pub open spec fn case_marker() -> Seq<char> {
    "__builtin_case__"@
}

pub open spec fn divmod_marker() -> Seq<char> {
    "__builtin_divmod__"@
}

/// The scopes at the start: one scope, which binds the names of the
/// built-in functions to their markers.
pub open spec fn initial_scopes() -> Scopes {
    let empty: Scopes = seq![Seq::empty()];
    assigned(
        assigned(
            assigned(
                assigned(
                    assigned(empty, "print"@, ValueView::String(print_marker())),
                    "len"@,
                    ValueView::String(len_marker()),
                ),
                "type"@,
                ValueView::String(type_marker()),
            ),
            "case"@,
            ValueView::String(case_marker()),
        ),
        "divmod"@,
        ValueView::String(divmod_marker()),
    )
}

/// The error for a name that no scope binds.
pub open spec fn undefined(name: Seq<char>, span: Span) -> ErrorView {
    runtime(span, "Undefined variable '"@ + name + "'"@)
}

/// The name of a function as an error message shows it: without the
/// marks that the name of a built-in function carries.
pub open spec fn plain_name(marker: Seq<char>) -> Seq<char> {
    replaced(replaced(marker, "__builtin_"@, ""@), "__"@, ""@)
}

// ---------------------------------------------------------------------------
// Expressions
// ---------------------------------------------------------------------------
/// The first step of an expression.
pub open spec fn evaluate<'a>(s: State<'a>, e: &'a Expr) -> Stepped<'a> {
    match *e {
        Expr::Literal { value, .. } => go(with_value(s, value@)),
        Expr::DoubleLiteral { text, .. } => Stepped {
            state: with_work(s, Work::Reply(Answer::Double)),
            action: Act::Ask(Request::Parse(text@)),
        },
        Expr::Variable { name, span } => match lookup(s.scopes, name@) {
            Some(v) => go(with_value(s, v)),
            None => failed(s, undefined(name@, span)),
        },
        Expr::Assign { value, .. } => go(with_work(with_work(s, Work::Then(e, 1)), Work::Eval(&*value))),
        Expr::MultiAssign { value, .. } => go(
            with_work(with_work(s, Work::Then(e, 1)), Work::Eval(&*value)),
        ),
        Expr::Binary { left, right, .. } => go(
            with_work(with_work(with_work(s, Work::Then(e, 1)), Work::Eval(&*right)), Work::Eval(&*left)),
        ),
        Expr::Unary { operand, .. } => go(with_work(with_work(s, Work::Then(e, 1)), Work::Eval(&*operand))),
        Expr::Logical { left, .. } => go(with_work(with_work(s, Work::Then(e, 1)), Work::Eval(&*left))),
        Expr::Call { callee, args, span } => go(
            with_work(with_work(s, Work::Call { args: &args, span }), Work::Eval(&*callee)),
        ),
        Expr::CallWithKwargs { callee, .. } => go(
            with_work(with_work(s, Work::Then(e, 1)), Work::Eval(&*callee)),
        ),
        Expr::MultiReturn { values, .. } => go(
            State { work: s.work.push(Work::Then(e, 1)) + evaluations(&values), ..s },
        ),
        Expr::Grouping { expr, .. } => go(with_work(s, Work::Eval(&*expr))),
        Expr::List { elements, .. } => go(
            State { work: s.work.push(Work::Then(e, 1)) + evaluations(&elements), ..s },
        ),
        Expr::Tuple { elements, .. } => go(
            State { work: s.work.push(Work::Then(e, 1)) + evaluations(&elements), ..s },
        ),
        Expr::Dict { pairs, .. } => {
            let start = with_value(s, ValueView::Dict(Seq::empty()));
            if pairs@.len() == 0 {
                go(start)
            } else {
                go(entry(start, e, &pairs@[0].0, &pairs@[0].1, 0))
            }
        },
        Expr::PropertyAccess { object, .. } => go(
            with_work(with_work(s, Work::Then(e, 1)), Work::Eval(&*object)),
        ),
    }
}

/// The work for entry `index` of a dictionary: key, then value, then the
/// rest.
pub open spec fn entry<'a>(
    s: State<'a>,
    e: &'a Expr,
    key: &'a Expr,
    value: &'a Expr,
    index: usize,
) -> State<'a> {
    with_work(with_work(with_work(s, Work::Then(e, index)), Work::Eval(value)), Work::Eval(key))
}

/// An assignment, after its value was evaluated: the value stays as the
/// value of the assignment.
pub open spec fn assign<'a>(s: State<'a>, name: Seq<char>) -> Stepped<'a> {
    if s.values.len() < 1 {
        corrupt(s)
    } else {
        go(State { scopes: assigned(s.scopes, name, s.values.last()), ..s })
    }
}

/// What an operation's outcome does to the state.
pub open spec fn operate<'a>(
    s: State<'a>,
    outcome: Operation<ValueView, ErrorView, Request<Seq<char>>>,
) -> Stepped<'a> {
    match outcome {
        Operation::Value(v) => go(with_value(s, v)),
        Operation::Fail(e) => failed(s, e),
        Operation::Ask(request) => match request {
            Request::NearestQuotient(a, b) => Stepped {
                state: with_work(s, Work::Quotient { a, b }),
                action: Act::Ask(request),
            },
            _ => Stepped {
                state: with_work(s, Work::Reply(asked(request))),
                action: Act::Ask(request),
            },
        },
        Operation::Equals { left, right, negate } => {
            let compared = with_value(with_value(s, left), right);
            if negate {
                go(with_work(with_work(compared, Work::Negate), Work::Equal { pairs: 1 }))
            } else {
                go(with_work(compared, Work::Equal { pairs: 1 }))
            }
        },
        Operation::Search { needle, items } => if items.len() > usize::MAX {
            failed(s, crowded())
        } else {
            go(
                State {
                    values: s.values.push(needle) + items.reverse(),
                    work: s.work.push(Work::Member { items: items.len() as usize }),
                    ..s
                },
            )
        },
    }
}

/// A binary operator, after its operands were evaluated.
pub open spec fn apply_binary<'a>(s: State<'a>, op: BinaryOp, span: Span) -> Stepped<'a> {
    if s.values.len() < 2 {
        corrupt(s)
    } else {
        operate(without(s, 2), binary(op, from_end(s, 1), from_end(s, 0), span))
    }
}

/// A unary operator, after its operand was evaluated.
pub open spec fn apply_unary<'a>(s: State<'a>, op: UnaryOp, span: Span) -> Stepped<'a> {
    if s.values.len() < 1 {
        corrupt(s)
    } else {
        settle(without(s, 1), unary(op, from_end(s, 0), span))
    }
}

/// `and` and `or`, after the left operand was evaluated: its value is the
/// result if it decides, else the right operand's value is.
pub open spec fn apply_logical<'a>(s: State<'a>, op: LogicalOp, right: &'a Expr) -> Stepped<'a> {
    if s.values.len() < 1 {
        corrupt(s)
    } else {
        let decided = match op {
            LogicalOp::Or => truthy(from_end(s, 0)),
            LogicalOp::And => !truthy(from_end(s, 0)),
        };
        if decided {
            go(s)
        } else {
            go(with_work(without(s, 1), Work::Eval(right)))
        }
    }
}

/// A list, a tuple or a multi-return, after its `n` elements were
/// evaluated.
pub open spec fn collect<'a>(s: State<'a>, n: int, tuple: bool) -> Stepped<'a> {
    if s.values.len() < n {
        corrupt(s)
    } else {
        let items = s.values.subrange(s.values.len() - n, s.values.len() as int);
        go(
            with_value(
                without(s, n),
                if tuple {
                    ValueView::Tuple(items)
                } else {
                    ValueView::List(items)
                },
            ),
        )
    }
}

/// A dictionary, after the key and the value of entry `index` were
/// evaluated: the key has to be a string.
pub open spec fn insert_entry<'a>(s: State<'a>, e: &'a Expr, index: usize) -> Stepped<'a> {
    match *e {
        Expr::Dict { pairs, span } => if s.values.len() < 3 || index >= pairs@.len() {
            corrupt(s)
        } else {
            match (from_end(s, 2), from_end(s, 1)) {
                (ValueView::Dict(entries), ValueView::String(key)) => {
                    let next = with_value(
                        without(s, 3),
                        ValueView::Dict(put(entries, key, from_end(s, 0))),
                    );
                    if index + 1 < pairs@.len() {
                        go(
                            entry(
                                next,
                                e,
                                &pairs@[index + 1].0,
                                &pairs@[index + 1].1,
                                (index + 1) as usize,
                            ),
                        )
                    } else {
                        go(next)
                    }
                },
                (ValueView::Dict(_), other) => failed(
                    without(s, 3),
                    runtime(span, "Dictionary keys must be strings, got "@ + kind_name_of(other)),
                ),
                _ => corrupt(s),
            }
        },
        _ => corrupt(s),
    }
}

/// The values that a value is unpacked into: the elements of a tuple or
/// a list, or the value alone.
pub open spec fn unpacked(v: ValueView) -> Seq<ValueView> {
    match v {
        ValueView::Tuple(items) => items,
        ValueView::List(items) => items,
        other => seq![other],
    }
}

/// The number of targets among the first `n` that are variables.
pub open spec fn variables(targets: Seq<AssignTarget>, n: int) -> nat
    decreases n,
{
    if n <= 0 {
        0
    } else {
        variables(targets, n - 1) + if targets[n - 1] is Variable {
            1nat
        } else {
            0nat
        }
    }
}

/// The scopes after the first `n` targets got their values: target `i`
/// gets value `i`, if there is one; `_` gets none.
pub open spec fn bind(scopes: Scopes, targets: Seq<AssignTarget>, values: Seq<ValueView>, n: int) -> Scopes
    decreases n,
{
    if n <= 0 {
        scopes
    } else {
        let before = bind(scopes, targets, values, n - 1);
        match targets[n - 1] {
            AssignTarget::Variable { name, .. } => if n - 1 < values.len() {
                assigned(before, name@, values[n - 1])
            } else {
                before
            },
            AssignTarget::Ignore { .. } => before,
        }
    }
}

/// The error for a multi-assignment with fewer values than targets.
pub open spec fn too_few(targets: nat, values: nat, span: Span) -> ErrorView {
    runtime_help(
        span,
        "Not enough values to unpack (expected "@ + decimal(targets) + ", got "@ + decimal(values)
            + ")"@,
        "Multi-assignment requires the same number of values as targets. Use _ to ignore extra values."@,
    )
}

/// A multi-assignment, after its value was evaluated: the value stays
/// as the value of the assignment.
pub open spec fn multi_assign<'a>(s: State<'a>, targets: Seq<AssignTarget>, span: Span) -> Stepped<
    'a,
> {
    if s.values.len() < 1 {
        corrupt(s)
    } else {
        let values = unpacked(s.values.last());
        if values.len() < variables(targets, targets.len() as int) {
            failed(s, too_few(targets.len(), values.len(), span))
        } else {
            go(State { scopes: bind(s.scopes, targets, values, targets.len() as int), ..s })
        }
    }
}

/// A property access, after its object was evaluated.
pub open spec fn access<'a>(s: State<'a>, name: Seq<char>, span: Span) -> Stepped<'a> {
    if s.values.len() < 1 {
        corrupt(s)
    } else {
        settle(without(s, 1), property(from_end(s, 0), name, span))
    }
}

/// A call with keyword arguments, after its callee was evaluated. Only
/// `divmod` takes keyword arguments.
pub open spec fn keyword_call<'a>(s: State<'a>, e: &'a Expr) -> Stepped<'a> {
    match *e {
        Expr::CallWithKwargs { callee, positional_args, keyword_args, span } => {
            if s.values.len() < 1 {
                corrupt(s)
            } else {
                let rest = without(s, 1);
                match from_end(s, 0) {
                    ValueView::String(name) => if name == divmod_marker() {
                        if positional_args@.len() != 2 {
                            failed(
                                rest,
                                runtime_help(
                                    span,
                                    "divmod() takes exactly 2 positional arguments, got "@
                                        + decimal(positional_args@.len()),
                                    "Usage: divmod(dividend, divisor, round_mode=\"down\")"@,
                                ),
                            )
                        } else {
                            go(
                                with_work(
                                    with_work(
                                        with_work(
                                            with_work(rest, Work::Keyword { call: e, index: 0 }),
                                            Work::Mode,
                                        ),
                                        Work::Eval(&positional_args@[1]),
                                    ),
                                    Work::Eval(&positional_args@[0]),
                                ),
                            )
                        }
                    } else if keyword_args@.len() > 0 {
                        failed(
                            rest,
                            runtime_help(
                                span,
                                "Function '"@ + plain_name(name)
                                    + "' does not accept keyword arguments"@,
                                "Only some built-in functions support keyword arguments."@,
                            ),
                        )
                    } else {
                        match lookup(s.scopes, name) {
                            Some(v) => go(
                                with_work(
                                    with_value(rest, v),
                                    Work::Call { args: &positional_args, span },
                                ),
                            ),
                            None => failed(rest, undefined(name, crate::ast::expr_span((*callee)@))),
                        }
                    },
                    _ => failed(
                        rest,
                        runtime_help(
                            span,
                            "User-defined functions with kwargs not yet implemented"@,
                            "Only built-in functions support keyword arguments currently."@,
                        ),
                    ),
                }
            }
        },
        _ => corrupt(s),
    }
}

/// An expression goes on, after what it consists of was evaluated.
pub open spec fn resume<'a>(s: State<'a>, e: &'a Expr, stage: usize) -> Stepped<'a> {
    match *e {
        Expr::Assign { name, .. } => assign(s, name@),
        Expr::MultiAssign { targets, span, .. } => multi_assign(s, targets@, span),
        Expr::Binary { operator, span, .. } => apply_binary(s, operator, span),
        Expr::Unary { operator, span, .. } => apply_unary(s, operator, span),
        Expr::Logical { operator, right, .. } => apply_logical(s, operator, &*right),
        Expr::CallWithKwargs { .. } => keyword_call(s, e),
        Expr::MultiReturn { values, .. } => collect(s, values@.len() as int, true),
        Expr::List { elements, .. } => collect(s, elements@.len() as int, false),
        Expr::Tuple { elements, .. } => collect(s, elements@.len() as int, true),
        Expr::Dict { .. } => insert_entry(s, e, stage),
        Expr::PropertyAccess { property, span, .. } => access(s, property@, span),
        _ => corrupt(s),
    }
}

// ---------------------------------------------------------------------------
// Calls
// ---------------------------------------------------------------------------
/// The failure of a call with the wrong number of arguments.
pub open spec fn arity<'a>(s: State<'a>, message: Seq<char>, got: nat, help: Seq<char>, span: Span) -> Stepped<
    'a,
> {
    failed(s, runtime_help(span, message + decimal(got), help))
}

/// A call, after its callee was evaluated: the callee has to be the
/// marker of a built-in function.
pub open spec fn call<'a>(s: State<'a>, args: &'a Vec<Expr>, span: Span) -> Stepped<'a> {
    if s.values.len() < 1 {
        corrupt(s)
    } else {
        let rest = without(s, 1);
        let n = args@.len();
        match from_end(s, 0) {
            ValueView::String(name) => if name == print_marker() {
                if n == 0 {
                    go(with_value(rest, ValueView::Nil))
                } else {
                    go(with_work(with_work(rest, Work::Print { args, next: 1 }), Work::Eval(&args@[0])))
                }
            } else if name == len_marker() {
                if n != 1 {
                    arity(
                        rest,
                        "len() takes exactly 1 argument, got "@,
                        n,
                        "Usage: len(value) where value is a string, list, or dictionary."@,
                        span,
                    )
                } else {
                    go(with_work(with_work(rest, Work::Len { span }), Work::Eval(&args@[0])))
                }
            } else if name == type_marker() {
                if n != 1 {
                    arity(
                        rest,
                        "type() takes exactly 1 argument, got "@,
                        n,
                        "Usage: type(value) returns the type name as a string."@,
                        span,
                    )
                } else {
                    go(with_work(with_work(rest, Work::TypeOf), Work::Eval(&args@[0])))
                }
            } else if name == case_marker() {
                if n < 2 || n % 2 != 0 {
                    arity(
                        rest,
                        "case() requires an even number of arguments (at least 2), got "@,
                        n,
                        "Usage: case(condition1, result1, condition2, result2, ...). Each condition is paired with its result."@,
                        span,
                    )
                } else {
                    go(with_work(with_work(rest, Work::Case { args, index: 0 }), Work::Eval(&args@[0])))
                }
            } else if name == divmod_marker() {
                if n != 2 {
                    arity(
                        rest,
                        "divmod() takes exactly 2 arguments, got "@,
                        n,
                        "Usage: divmod(dividend, divisor) - use divmod(a, b, round_mode=\"up\") for keyword arguments."@,
                        span,
                    )
                } else {
                    go(
                        with_work(
                            with_work(
                                with_work(with_work(rest, Work::Divmod { span }), Work::Mode),
                                Work::Eval(&args@[1]),
                            ),
                            Work::Eval(&args@[0]),
                        ),
                    )
                }
            } else {
                failed(rest, no_function(span))
            },
            _ => failed(rest, no_function(span)),
        }
    }
}

/// The error for a call of what is no built-in function.
pub open spec fn no_function(span: Span) -> ErrorView {
    runtime_help(
        span,
        "User-defined functions not yet implemented"@,
        "Only built-in functions like print(), len(), and type() are currently supported."@,
    )
}

/// `print`, after an argument was evaluated: it is printed, and the next
/// argument is evaluated; the call's value is nil.
pub open spec fn print<'a>(s: State<'a>, args: &'a Vec<Expr>, next: usize) -> Stepped<'a> {
    if s.values.len() < 1 {
        corrupt(s)
    } else {
        let rest = without(s, 1);
        Stepped {
            state: if next < args@.len() {
                with_work(
                    with_work(rest, Work::Print { args, next: (next + 1) as usize }),
                    Work::Eval(&args@[next as int]),
                )
            } else {
                with_value(rest, ValueView::Nil)
            },
            action: Act::Print(rendered(from_end(s, 0))),
        }
    }
}

/// `case`, after condition `index` was evaluated: if it holds, the
/// result after it is the result of the call; if not, the next condition
/// is evaluated; if none is left, the result is nil.
pub open spec fn case<'a>(s: State<'a>, args: &'a Vec<Expr>, index: usize) -> Stepped<'a> {
    if s.values.len() < 1 || index + 1 >= args@.len() {
        corrupt(s)
    } else {
        let rest = without(s, 1);
        if truthy(from_end(s, 0)) {
            go(with_work(with_work(rest, Work::Wrap), Work::Eval(&args@[index + 1])))
        } else if index + 3 < args@.len() {
            go(
                with_work(
                    with_work(rest, Work::Case { args, index: (index + 2) as usize }),
                    Work::Eval(&args@[index + 2]),
                ),
            )
        } else {
            go(with_value(rest, ValueView::CaseResult(Box::new(ValueView::Nil))))
        }
    }
}

/// `divmod`, after dividend, divisor and rounding mode were evaluated.
pub open spec fn apply_divmod<'a>(s: State<'a>, span: Span) -> Stepped<'a> {
    if s.values.len() < 3 {
        corrupt(s)
    } else {
        match from_end(s, 0) {
            ValueView::String(mode) => operate(
                without(s, 3),
                divmod(from_end(s, 2), from_end(s, 1), mode, span),
            ),
            _ => corrupt(s),
        }
    }
}

/// The keyword arguments of `divmod` from `index` on: each has to be
/// `round_mode`.
pub open spec fn keyword<'a>(s: State<'a>, e: &'a Expr, index: usize) -> Stepped<'a> {
    match *e {
        Expr::CallWithKwargs { keyword_args, span, .. } => if index >= keyword_args@.len() {
            go(with_work(s, Work::Divmod { span }))
        } else if keyword_args@[index as int].name@ == "round_mode"@ {
            go(
                with_work(
                    with_work(s, Work::KeywordValue { call: e, index }),
                    Work::Eval(&keyword_args@[index as int].value),
                ),
            )
        } else {
            failed(
                s,
                runtime_help(
                    span,
                    "Unknown keyword argument '"@ + keyword_args@[index as int].name@
                        + "' for divmod()"@,
                    "Valid keyword arguments: round_mode"@,
                ),
            )
        },
        _ => corrupt(s),
    }
}

/// After the value of `round_mode` was evaluated: it has to be a string,
/// and takes the place of the mode before it.
pub open spec fn keyword_value<'a>(s: State<'a>, e: &'a Expr, index: usize) -> Stepped<'a> {
    match *e {
        Expr::CallWithKwargs { span, .. } => if s.values.len() < 2 || index >= usize::MAX {
            corrupt(s)
        } else {
            match from_end(s, 0) {
                ValueView::String(mode) => go(
                    with_work(
                        with_value(without(s, 2), ValueView::String(mode)),
                        Work::Keyword { call: e, index: (index + 1) as usize },
                    ),
                ),
                _ => failed(
                    without(s, 2),
                    runtime_help(
                        span,
                        "round_mode must be a string"@,
                        "Valid round modes: \"down\", \"up\", \"nearest\""@,
                    ),
                ),
            }
        },
        _ => corrupt(s),
    }
}

// ---------------------------------------------------------------------------
// Equality and membership
// ---------------------------------------------------------------------------
/// The elements of two sequences of one length as pairs, the first pair
/// last.
pub open spec fn paired(left: Seq<ValueView>, right: Seq<ValueView>) -> Seq<ValueView> {
    Seq::new(
        2 * left.len(),
        |i: int|
            if i % 2 == 0 {
                left[left.len() - 1 - i / 2]
            } else {
                right[left.len() - 1 - i / 2]
            },
    )
}

/// The comparison has found a difference: the pairs that are left are
/// dropped.
pub open spec fn differ<'a>(s: State<'a>, pairs: int) -> Stepped<'a> {
    if s.values.len() < 2 * pairs {
        corrupt(s)
    } else {
        go(with_value(without(s, 2 * pairs), ValueView::Bool(false)))
    }
}

/// Compares the last pair of `pairs` pairs.
pub open spec fn equal<'a>(s: State<'a>, pairs: usize) -> Stepped<'a> {
    if pairs == 0 {
        go(with_value(s, ValueView::Bool(true)))
    } else if s.values.len() < 2 {
        corrupt(s)
    } else {
        let rest = without(s, 2);
        match pairing(from_end(s, 1), from_end(s, 0)) {
            Pairing::Equal => go(with_work(rest, Work::Equal { pairs: (pairs - 1) as usize })),
            Pairing::Unequal => differ(rest, pairs - 1),
            Pairing::Numbers(l, r) => Stepped {
                state: with_work(rest, Work::Verdict { pairs: (pairs - 1) as usize }),
                action: Act::Ask(Request::Compare(Comparison::Equal, l, r)),
            },
            Pairing::Elements(l, r) => if pairs - 1 + l.len() > usize::MAX {
                failed(s, crowded())
            } else {
                go(
                    State {
                        values: rest.values + paired(l, r),
                        work: rest.work.push(
                            Work::Equal { pairs: (pairs - 1 + l.len()) as usize },
                        ),
                        ..rest
                    },
                )
            },
        }
    }
}

/// The host's verdict on a pair of numbers.
pub open spec fn verdict<'a>(s: State<'a>, pairs: usize, reply: Reply) -> Stepped<'a> {
    match reply {
        Reply::Bool(same) => if same {
            go(with_work(s, Work::Equal { pairs }))
        } else {
            differ(s, pairs as int)
        },
        _ => corrupt(s),
    }
}

pub open spec fn negate<'a>(s: State<'a>) -> Stepped<'a> {
    if s.values.len() < 1 {
        corrupt(s)
    } else {
        match from_end(s, 0) {
            ValueView::Bool(b) => go(with_value(without(s, 1), ValueView::Bool(!b))),
            _ => corrupt(s),
        }
    }
}

/// Looks at the last of `items` values: is the needle equal to it?
pub open spec fn member<'a>(s: State<'a>, items: usize) -> Stepped<'a> {
    if s.values.len() < items + 1 {
        corrupt(s)
    } else if items == 0 {
        go(with_value(without(s, 1), ValueView::Bool(false)))
    } else {
        let needle = from_end(s, items as int);
        go(
            with_work(
                with_work(
                    with_value(with_value(without(s, 1), needle), from_end(s, 0)),
                    Work::Found { items: (items - 1) as usize },
                ),
                Work::Equal { pairs: 1 },
            ),
        )
    }
}

/// After the needle was compared with an item.
pub open spec fn found<'a>(s: State<'a>, items: usize) -> Stepped<'a> {
    if s.values.len() < items + 2 {
        corrupt(s)
    } else {
        match from_end(s, 0) {
            ValueView::Bool(same) => if same {
                go(with_value(without(s, items + 2), ValueView::Bool(true)))
            } else {
                go(with_work(without(s, 1), Work::Member { items }))
            },
            _ => corrupt(s),
        }
    }
}

// ---------------------------------------------------------------------------
// Replies
// ---------------------------------------------------------------------------
/// The value that a reply stands for.
pub open spec fn reply_value(reply: Reply) -> Option<ValueView> {
    match reply {
        Reply::Nothing => None,
        Reply::Bool(b) => Some(ValueView::Bool(b)),
        Reply::Int(n) => Some(ValueView::Int(n)),
        Reply::Double(d) => Some(ValueView::Double(d.bits)),
        Reply::Pair(q, r) => Some(
            ValueView::Tuple(seq![ValueView::Double(q.bits), ValueView::Double(r.bits)]),
        ),
    }
}

pub open spec fn answer<'a>(s: State<'a>, kind: Answer, reply: Reply) -> Stepped<'a> {
    match reply_value(reply) {
        Some(v) => if fitting(reply, kind) {
            go(with_value(s, v))
        } else {
            corrupt(s)
        },
        None => corrupt(s),
    }
}

pub open spec fn quotient<'a>(s: State<'a>, a: i64, b: i64, reply: Reply) -> Stepped<'a> {
    match reply {
        Reply::Int(q) => go(with_value(s, pair_of(q, left_over(a, q, b)))),
        _ => corrupt(s),
    }
}

// ---------------------------------------------------------------------------
// Statements
// ---------------------------------------------------------------------------
/// The first step of a statement.
pub open spec fn execute<'a>(s: State<'a>, st: &'a Stmt) -> Stepped<'a> {
    match *st {
        Stmt::Expression { expr, .. } => go(with_work(with_work(s, Work::Discard), Work::Eval(&expr))),
        Stmt::Block { statements, .. } => go(
            State {
                scopes: s.scopes.push(Seq::empty()),
                work: s.work.push(Work::CloseScope) + executions(&statements),
                ..s
            },
        ),
        Stmt::If { condition, .. } => go(
            with_work(with_work(s, Work::ThenStmt(st, 1)), Work::Eval(&condition)),
        ),
        Stmt::While { condition, .. } => go(
            with_work(with_work(s, Work::ThenStmt(st, 1)), Work::Eval(&condition)),
        ),
        Stmt::For { initializer, .. } => match initializer {
            Some(first) => go(with_work(with_work(s, Work::ThenStmt(st, 1)), Work::Exec(&*first))),
            None => go(with_work(s, Work::ThenStmt(st, 1))),
        },
    }
}

/// A loop goes round once: the body, then the step at `stage`.
pub open spec fn round<'a>(s: State<'a>, st: &'a Stmt, body: &'a Stmt, stage: usize) -> Stepped<
    'a,
> {
    go(with_work(with_work(s, Work::ThenStmt(st, stage)), Work::Exec(body)))
}

/// A statement goes on. Stage 1 of `if` and `while` follows the
/// condition. Of `for`, stage 1 comes before each round, stage 2 follows
/// the condition and stage 3 the body.
pub open spec fn proceed<'a>(s: State<'a>, st: &'a Stmt, stage: usize) -> Stepped<'a> {
    match *st {
        Stmt::If { then_branch, else_branch, .. } => if s.values.len() < 1 {
            corrupt(s)
        } else if truthy(from_end(s, 0)) {
            go(with_work(without(s, 1), Work::Exec(&*then_branch)))
        } else {
            match else_branch {
                Some(other) => go(with_work(without(s, 1), Work::Exec(&*other))),
                None => go(without(s, 1)),
            }
        },
        Stmt::While { body, .. } => if s.values.len() < 1 {
            corrupt(s)
        } else if truthy(from_end(s, 0)) {
            go(with_work(with_work(without(s, 1), Work::Exec(st)), Work::Exec(&*body)))
        } else {
            go(without(s, 1))
        },
        Stmt::For { condition, increment, body, .. } => if stage == 1 {
            match condition {
                Some(c) => go(with_work(with_work(s, Work::ThenStmt(st, 2)), Work::Eval(&c))),
                None => round(s, st, &*body, 3),
            }
        } else if stage == 2 {
            if s.values.len() < 1 {
                corrupt(s)
            } else if truthy(from_end(s, 0)) {
                round(without(s, 1), st, &*body, 3)
            } else {
                go(without(s, 1))
            }
        } else if stage == 3 {
            match increment {
                Some(i) => go(
                    with_work(with_work(with_work(s, Work::ThenStmt(st, 1)), Work::Discard), Work::Eval(&i)),
                ),
                None => go(with_work(s, Work::ThenStmt(st, 1))),
            }
        } else {
            corrupt(s)
        },
        _ => corrupt(s),
    }
}

// ---------------------------------------------------------------------------
// The step
// ---------------------------------------------------------------------------
/// The end of an evaluation: its value is the last value, or nil.
pub open spec fn finish<'a>(s: State<'a>) -> Stepped<'a> {
    Stepped {
        state: State { values: Seq::empty(), ..s },
        action: Act::Done(
            Ok(
                if s.values.len() > 0 {
                    s.values.last()
                } else {
                    ValueView::Nil
                },
            ),
        ),
    }
}

/// One step: the work on top is done.
pub open spec fn step<'a>(s: State<'a>, reply: Reply) -> Stepped<'a> {
    if s.work.len() == 0 {
        finish(s)
    } else {
        let rest = State { work: s.work.drop_last(), ..s };
        match s.work.last() {
            Work::Eval(e) => evaluate(rest, e),
            Work::Then(e, stage) => resume(rest, e, stage),
            Work::Exec(st) => execute(rest, st),
            Work::ThenStmt(st, stage) => proceed(rest, st, stage),
            Work::Discard => if rest.values.len() < 1 {
                corrupt(rest)
            } else {
                go(without(rest, 1))
            },
            Work::CloseScope => go(State { scopes: closed(rest.scopes), ..rest }),
            Work::Call { args, span } => call(rest, args, span),
            Work::Print { args, next } => print(rest, args, next),
            Work::Len { span } => if rest.values.len() < 1 {
                corrupt(rest)
            } else {
                settle(without(rest, 1), length(from_end(rest, 0), span))
            },
            Work::TypeOf => if rest.values.len() < 1 {
                corrupt(rest)
            } else {
                go(
                    with_value(
                        without(rest, 1),
                        ValueView::String(kind_name_of(from_end(rest, 0))),
                    ),
                )
            },
            Work::Case { args, index } => case(rest, args, index),
            Work::Wrap => if rest.values.len() < 1 {
                corrupt(rest)
            } else {
                go(
                    with_value(
                        without(rest, 1),
                        ValueView::CaseResult(Box::new(from_end(rest, 0))),
                    ),
                )
            },
            Work::Mode => go(with_value(rest, ValueView::String("down"@))),
            Work::Divmod { span } => apply_divmod(rest, span),
            Work::Keyword { call, index } => keyword(rest, call, index),
            Work::KeywordValue { call, index } => keyword_value(rest, call, index),
            Work::Equal { pairs } => equal(rest, pairs),
            Work::Verdict { pairs } => verdict(rest, pairs, reply),
            Work::Negate => negate(rest),
            Work::Member { items } => member(rest, items),
            Work::Found { items } => found(rest, items),
            Work::Reply(kind) => answer(rest, kind, reply),
            Work::Quotient { a, b } => quotient(rest, a, b, reply),
        }
    }
}

/// Up to `n` steps: they end with the first step that tells the host to
/// do something other than to go on.
pub open spec fn steps<'a>(s: State<'a>, reply: Reply, n: nat) -> Stepped<'a>
    decreases n,
{
    if n == 0 {
        go(s)
    } else {
        let first = step(s, reply);
        if first.action is Continue {
            steps(first.state, Reply::Nothing, (n - 1) as nat)
        } else {
            first
        }
    }
}

/// The state in which a program's evaluation starts.
pub open spec fn program_start<'a>(scopes: Scopes, statements: &'a Vec<Stmt>) -> State<'a> {
    State { scopes, work: executions(statements), values: Seq::empty() }
}

/// The state in which an expression's evaluation starts.
pub open spec fn expression_start<'a>(scopes: Scopes, e: &'a Expr) -> State<'a> {
    State { scopes, work: seq![Work::Eval(e)], values: Seq::empty() }
}

} // verus!
