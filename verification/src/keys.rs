//! No key occurs twice.
//!
//! A dictionary binds each of its keys once, and a scope each of its
//! names. The scopes in which evaluations start are so, and a step keeps
//! all values and scopes so, unless it evaluates a literal that holds a
//! dictionary with a key that occurs twice: a tree that was built by
//! hand can hold one, a tree that the parser gives holds none.
use crate::ast::{
    expr_view, expr_views, group_ast_views, keyword_views, pair_views, stmt_view, stmt_views,
    AssignTarget, Expr, Stmt, StmtView,
};
use crate::environment::{
    assigned, bound, lemma_position_bounds, lemma_put_keeps_names_unique, lookup, owner, position,
    put, Bindings, Scopes,
};
use crate::error::{ErrorView, Span};
use crate::host::{Answer, Reply};
use crate::laws::lemma_owner;
use crate::lexer::byte_len;
use crate::runner::program_of;
use crate::spans::{lemma_source_spans_in_order, tidy, tidy_statement};
use crate::machine::{
    answer, apply_divmod, bind, call, case, closed, closes, collect, equal, evaluate,
    evaluations, execute, executions, expression_start, program_start, steps,
    finish, found, from_end, initial_scopes, insert_entry, keyword, keyword_call, keyword_value,
    member, multi_assign, negate, operate, paired, print, proceed, quotient, resume, settle, step,
    stopped, unpacked, unwound, verdict, with_value, without, Act, State, Work,
};
use crate::operations::{
    binary, count_value, divided, divmod, left_over, length, pair_of, pairing, property, quotient_up, unary,
    Operation, OperationView, Pairing,
};
use crate::value::{kind_name_of, unique_keys, well_keyed, ValueView};
use vstd::prelude::*;

verus! {

/// Every value of the sequence is well keyed.
pub open spec fn all_keyed(values: Seq<ValueView>) -> bool {
    forall|i: int| 0 <= i < values.len() ==> well_keyed(#[trigger] values[i])
}

/// The bindings bind each name once, to a value that is well keyed.
pub open spec fn keyed_bindings(bindings: Bindings) -> bool {
    &&& unique_keys(bindings)
    &&& forall|i: int| 0 <= i < bindings.len() ==> well_keyed((#[trigger] bindings[i]).1)
}

/// Every scope binds each of its names once, to a value that is well
/// keyed.
pub open spec fn keyed_scopes(scopes: Scopes) -> bool {
    forall|d: int| 0 <= d < scopes.len() ==> keyed_bindings(#[trigger] scopes[d])
}

/// Scopes and values of the state are well keyed.
pub open spec fn keyed<'a>(s: State<'a>) -> bool {
    &&& keyed_scopes(s.scopes)
    &&& all_keyed(s.values)
}

/// The literal that the next step evaluates, if it evaluates one.
pub open spec fn literal_ahead<'a>(s: State<'a>) -> Option<ValueView> {
    if s.work.len() == 0 {
        None
    } else {
        match s.work.last() {
            Work::Eval(e) => match *e {
                Expr::Literal { value, .. } => Some(value@),
                _ => None,
            },
            _ => None,
        }
    }
}

// ---------------------------------------------------------------------------
// Bindings and scopes
// ---------------------------------------------------------------------------
/// Binding a name to a well-keyed value keeps bindings well keyed.
pub proof fn lemma_put_keyed(bindings: Bindings, name: Seq<char>, value: ValueView)
    requires
        keyed_bindings(bindings),
        well_keyed(value),
    ensures
        keyed_bindings(put(bindings, name, value)),
{
    lemma_put_keeps_names_unique(bindings, name, value);
    lemma_position_bounds(bindings, name, 0);
    let after = put(bindings, name, value);
    assert forall|i: int| 0 <= i < after.len() implies well_keyed((#[trigger] after[i]).1) by {
        match position(bindings, name, 0) {
            Some(at) => {
                if i != at {
                    assert(after[i] == bindings[i]);
                }
            },
            None => {
                if i < bindings.len() {
                    assert(after[i] == bindings[i]);
                }
            },
        }
    }
}

proof fn lemma_bound_keyed(bindings: Bindings, name: Seq<char>)
    requires
        keyed_bindings(bindings),
    ensures
        bound(bindings, name) matches Some(v) ==> well_keyed(v),
{
    lemma_position_bounds(bindings, name, 0);
}

proof fn lemma_lookup_keyed(scopes: Scopes, name: Seq<char>)
    requires
        keyed_scopes(scopes),
    ensures
        lookup(scopes, name) matches Some(v) ==> well_keyed(v),
    decreases scopes.len(),
{
    if scopes.len() > 0 {
        lemma_bound_keyed(scopes.last(), name);
        if bound(scopes.last(), name) is None {
            let outer = scopes.drop_last();
            assert forall|d: int| 0 <= d < outer.len() implies keyed_bindings(
                #[trigger] outer[d],
            ) by {
                assert(outer[d] == scopes[d]);
            }
            lemma_lookup_keyed(outer, name);
        }
    }
}

proof fn lemma_assigned_keyed(scopes: Scopes, name: Seq<char>, value: ValueView)
    requires
        keyed_scopes(scopes),
        well_keyed(value),
    ensures
        keyed_scopes(assigned(scopes, name, value)),
{
    let after = assigned(scopes, name, value);
    if scopes.len() == 0 {
        lemma_put_keyed(Seq::empty(), name, value);
    } else {
        lemma_owner(scopes, name, scopes.len() as int);
        let at = match owner(scopes, name, scopes.len() as int) {
            Some(d) => d,
            None => scopes.len() - 1,
        };
        lemma_put_keyed(scopes[at], name, value);
        assert forall|d: int| 0 <= d < after.len() implies keyed_bindings(#[trigger] after[d]) by {
            if d != at {
                assert(after[d] == scopes[d]);
            }
        }
    }
}

proof fn lemma_bind_keyed(scopes: Scopes, targets: Seq<AssignTarget>, values: Seq<ValueView>, n: int)
    requires
        keyed_scopes(scopes),
        all_keyed(values),
    ensures
        keyed_scopes(bind(scopes, targets, values, n)),
    decreases n,
{
    if n > 0 {
        lemma_bind_keyed(scopes, targets, values, n - 1);
        let before = bind(scopes, targets, values, n - 1);
        match targets[n - 1] {
            AssignTarget::Variable { name, .. } => {
                if n - 1 < values.len() {
                    lemma_assigned_keyed(before, name@, values[n - 1]);
                }
            },
            AssignTarget::Ignore { .. } => {},
        }
    }
}

proof fn lemma_unwound_keyed(scopes: Scopes, n: nat)
    requires
        keyed_scopes(scopes),
    ensures
        keyed_scopes(unwound(scopes, n)),
    decreases n,
{
    if n > 0 {
        let inner = closed(scopes);
        assert forall|d: int| 0 <= d < inner.len() implies keyed_bindings(#[trigger] inner[d]) by {
            assert(inner[d] == scopes[d]);
        }
        lemma_unwound_keyed(inner, (n - 1) as nat);
    }
}

/// The scopes in which evaluations start are well keyed.
pub proof fn lemma_start_is_keyed()
    ensures
        keyed_scopes(initial_scopes()),
{
    let empty: Scopes = seq![Seq::empty()];
    assert(keyed_scopes(empty));
    let a = assigned(empty, "print"@, ValueView::String(crate::machine::print_marker()));
    lemma_assigned_keyed(empty, "print"@, ValueView::String(crate::machine::print_marker()));
    let b = assigned(a, "len"@, ValueView::String(crate::machine::len_marker()));
    lemma_assigned_keyed(a, "len"@, ValueView::String(crate::machine::len_marker()));
    let c = assigned(b, "type"@, ValueView::String(crate::machine::type_marker()));
    lemma_assigned_keyed(b, "type"@, ValueView::String(crate::machine::type_marker()));
    let d = assigned(c, "case"@, ValueView::String(crate::machine::case_marker()));
    lemma_assigned_keyed(c, "case"@, ValueView::String(crate::machine::case_marker()));
    lemma_assigned_keyed(d, "divmod"@, ValueView::String(crate::machine::divmod_marker()));
}

/// The keys of a dictionary.
pub open spec fn keys_of(entries: Bindings) -> Set<Seq<char>> {
    entries.map_values(|entry: (Seq<char>, ValueView)| entry.0).to_set()
}

/// A dictionary whose keys are unique has as many keys as entries: its
/// length is the number of its keys.
pub proof fn lemma_length_counts_keys(entries: Bindings, span: Span)
    requires
        unique_keys(entries),
    ensures
        keys_of(entries).finite(),
        keys_of(entries).len() == entries.len(),
        length(ValueView::Dict(entries), span) == Ok::<ValueView, ErrorView>(
            count_value(keys_of(entries).len()),
        ),
{
    let keys = entries.map_values(|entry: (Seq<char>, ValueView)| entry.0);
    assert forall|i: int, j: int| 0 <= i < keys.len() && 0 <= j < keys.len() && i != j implies keys[i]
        != keys[j] by {
        if i < j {
            assert(entries[i].0 != entries[j].0);
        } else {
            assert(entries[j].0 != entries[i].0);
        }
    }
    keys.unique_seq_to_set();
}

// ---------------------------------------------------------------------------
// Steps
// ---------------------------------------------------------------------------
proof fn lemma_stopped_keyed<'a>(s: State<'a>)
    requires
        keyed_scopes(s.scopes),
    ensures
        keyed(stopped(s)),
{
    lemma_unwound_keyed(s.scopes, closes(s.work));
}

/// What an operation comes to holds well-keyed values only.
pub open spec fn keyed_outcome(outcome: OperationView) -> bool {
    match outcome {
        Operation::Value(v) => well_keyed(v),
        Operation::Equals { left, right, .. } => well_keyed(left) && well_keyed(right),
        Operation::Search { needle, items } => well_keyed(needle) && all_keyed(items),
        _ => true,
    }
}

proof fn lemma_binary_keyed(op: crate::ast::BinaryOp, left: ValueView, right: ValueView, span: Span)
    requires
        well_keyed(left),
        well_keyed(right),
    ensures
        keyed_outcome(binary(op, left, right, span)),
{
}

proof fn lemma_pair_keyed(q: i64, r: i64)
    ensures
        well_keyed(pair_of(q, r)),
{
    let items = seq![ValueView::Int(q), ValueView::Int(r)];
    assert forall|i: int| 0 <= i < items.len() implies well_keyed(#[trigger] items[i]) by {}
}

proof fn lemma_divmod_keyed(dividend: ValueView, divisor: ValueView, mode: Seq<char>, span: Span)
    ensures
        keyed_outcome(divmod(dividend, divisor, mode, span)),
{
    match (dividend, divisor) {
        (ValueView::Int(a), ValueView::Int(b)) => {
            lemma_pair_keyed(divided(a, b), left_over(a, divided(a, b), b));
            lemma_pair_keyed(quotient_up(a, b), left_over(a, quotient_up(a, b), b));
        },
        _ => {},
    }
}

proof fn lemma_operate_keyed<'a>(s: State<'a>, outcome: OperationView)
    requires
        keyed(s),
        keyed_outcome(outcome),
    ensures
        keyed(operate(s, outcome).state),
{
    lemma_stopped_keyed(s);
}

proof fn lemma_settle_keyed<'a>(s: State<'a>, result: Result<ValueView, ErrorView>)
    requires
        keyed(s),
        result matches Ok(v) ==> well_keyed(v),
    ensures
        keyed(settle(s, result).state),
{
    lemma_stopped_keyed(s);
}

proof fn lemma_evaluate_keyed<'a>(s: State<'a>, e: &'a Expr)
    requires
        keyed(s),
        *e matches Expr::Literal { value, .. } ==> well_keyed(value@),
    ensures
        keyed(evaluate(s, e).state),
{
    lemma_stopped_keyed(s);
    match *e {
        Expr::Variable { name, .. } => {
            lemma_lookup_keyed(s.scopes, name@);
        },
        Expr::Dict { .. } => {
            assert(well_keyed(ValueView::Dict(Seq::empty())));
        },
        _ => {},
    }
}

proof fn lemma_insert_entry_keyed<'a>(s: State<'a>, e: &'a Expr, index: usize)
    requires
        keyed(s),
    ensures
        keyed(insert_entry(s, e, index).state),
{
    lemma_stopped_keyed(s);
    lemma_stopped_keyed(without(s, 3));
    match *e {
        Expr::Dict { pairs, .. } => {
            if s.values.len() >= 3 && index < pairs@.len() {
                match (from_end(s, 2), from_end(s, 1)) {
                    (ValueView::Dict(entries), ValueView::String(key)) => {
                        assert(well_keyed(from_end(s, 2)));
                        lemma_put_keyed(entries, key, from_end(s, 0));
                    },
                    _ => {},
                }
            }
        },
        _ => {},
    }
}

proof fn lemma_multi_assign_keyed<'a>(s: State<'a>, targets: Seq<AssignTarget>, span: Span)
    requires
        keyed(s),
    ensures
        keyed(multi_assign(s, targets, span).state),
{
    lemma_stopped_keyed(s);
    if s.values.len() >= 1 {
        let values = unpacked(s.values.last());
        assert(well_keyed(s.values.last()));
        assert(all_keyed(values));
        lemma_bind_keyed(s.scopes, targets, values, targets.len() as int);
    }
}

proof fn lemma_keyword_call_keyed<'a>(s: State<'a>, e: &'a Expr)
    requires
        keyed(s),
    ensures
        keyed(keyword_call(s, e).state),
{
    lemma_stopped_keyed(s);
    if s.values.len() >= 1 {
        lemma_stopped_keyed(without(s, 1));
        match from_end(s, 0) {
            ValueView::String(name) => {
                lemma_lookup_keyed(s.scopes, name);
            },
            _ => {},
        }
    }
}

proof fn lemma_resume_keyed<'a>(s: State<'a>, e: &'a Expr, stage: usize)
    requires
        keyed(s),
    ensures
        keyed(resume(s, e, stage).state),
{
    lemma_stopped_keyed(s);
    match *e {
        Expr::Assign { name, .. } => {
            if s.values.len() >= 1 {
                lemma_assigned_keyed(s.scopes, name@, s.values.last());
            }
        },
        Expr::MultiAssign { targets, span, .. } => lemma_multi_assign_keyed(s, targets@, span),
        Expr::Binary { operator, span, .. } => {
            if s.values.len() >= 2 {
                lemma_binary_keyed(operator, from_end(s, 1), from_end(s, 0), span);
                lemma_operate_keyed(without(s, 2), binary(operator, from_end(s, 1), from_end(s, 0), span));
            }
        },
        Expr::Unary { operator, span, .. } => {
            if s.values.len() >= 1 {
                lemma_settle_keyed(without(s, 1), unary(operator, from_end(s, 0), span));
            }
        },
        Expr::Logical { .. } => {},
        Expr::CallWithKwargs { .. } => lemma_keyword_call_keyed(s, e),
        Expr::MultiReturn { values, .. } => lemma_collect_keyed(s, values@.len() as int, true),
        Expr::List { elements, .. } => lemma_collect_keyed(s, elements@.len() as int, false),
        Expr::Tuple { elements, .. } => lemma_collect_keyed(s, elements@.len() as int, true),
        Expr::Dict { .. } => lemma_insert_entry_keyed(s, e, stage),
        Expr::PropertyAccess { property: name, span, .. } => {
            if s.values.len() >= 1 {
                assert(well_keyed(from_end(s, 0)));
                lemma_settle_keyed(without(s, 1), property(from_end(s, 0), name@, span));
            }
        },
        _ => {},
    }
}

proof fn lemma_collect_keyed<'a>(s: State<'a>, n: int, tuple: bool)
    requires
        keyed(s),
        0 <= n,
    ensures
        keyed(collect(s, n, tuple).state),
{
    lemma_stopped_keyed(s);
    if s.values.len() >= n {
        let items = s.values.subrange(s.values.len() - n, s.values.len() as int);
        assert(all_keyed(items));
        assert(well_keyed(ValueView::Tuple(items)));
        assert(well_keyed(ValueView::List(items)));
    }
}

proof fn lemma_call_keyed<'a>(s: State<'a>, args: &'a Vec<Expr>, span: Span)
    requires
        keyed(s),
    ensures
        keyed(call(s, args, span).state),
{
    lemma_stopped_keyed(s);
    if s.values.len() >= 1 {
        lemma_stopped_keyed(without(s, 1));
    }
}

proof fn lemma_equal_keyed<'a>(s: State<'a>, pairs: usize)
    requires
        keyed(s),
    ensures
        keyed(equal(s, pairs).state),
{
    lemma_stopped_keyed(s);
    if pairs > 0 && s.values.len() >= 2 {
        let rest = without(s, 2);
        lemma_stopped_keyed(rest);
        assert(well_keyed(from_end(s, 1)));
        assert(well_keyed(from_end(s, 0)));
        match pairing(from_end(s, 1), from_end(s, 0)) {
            Pairing::Elements(l, r) => {
                assert(all_keyed(l));
                assert(all_keyed(r));
                assert(all_keyed(paired(l, r)));
                assert(all_keyed(rest.values + paired(l, r)));
            },
            _ => {},
        }
    }
}

proof fn lemma_proceed_keyed<'a>(s: State<'a>, st: &'a Stmt, stage: usize)
    requires
        keyed(s),
    ensures
        keyed(proceed(s, st, stage).state),
{
    lemma_stopped_keyed(s);
}

proof fn lemma_print_keyed<'a>(s: State<'a>, args: &'a Vec<Expr>, next: usize)
    requires
        keyed(s),
    ensures
        keyed(print(s, args, next).state),
{
    lemma_stopped_keyed(s);
}

proof fn lemma_case_keyed<'a>(s: State<'a>, args: &'a Vec<Expr>, index: usize)
    requires
        keyed(s),
    ensures
        keyed(case(s, args, index).state),
{
    lemma_stopped_keyed(s);
    assert(well_keyed(ValueView::Nil));
    assert(well_keyed(ValueView::CaseResult(Box::new(ValueView::Nil))));
}

proof fn lemma_apply_divmod_keyed<'a>(s: State<'a>, span: Span)
    requires
        keyed(s),
    ensures
        keyed(apply_divmod(s, span).state),
{
    lemma_stopped_keyed(s);
    if s.values.len() >= 3 {
        match from_end(s, 0) {
            ValueView::String(mode) => {
                lemma_divmod_keyed(from_end(s, 2), from_end(s, 1), mode, span);
                lemma_operate_keyed(
                    without(s, 3),
                    divmod(from_end(s, 2), from_end(s, 1), mode, span),
                );
            },
            _ => {},
        }
    }
}

proof fn lemma_keyword_keyed<'a>(s: State<'a>, e: &'a Expr, index: usize)
    requires
        keyed(s),
    ensures
        keyed(keyword(s, e, index).state),
        keyed(keyword_value(s, e, index).state),
{
    lemma_stopped_keyed(s);
    if s.values.len() >= 2 {
        lemma_stopped_keyed(without(s, 2));
    }
}

proof fn lemma_member_keyed<'a>(s: State<'a>, items: usize)
    requires
        keyed(s),
    ensures
        keyed(member(s, items).state),
        keyed(found(s, items).state),
{
    lemma_stopped_keyed(s);
    if s.values.len() >= items + 1 && items > 0 {
        assert(well_keyed(from_end(s, items as int)));
        assert(well_keyed(from_end(s, 0)));
    }
}

proof fn lemma_reply_keyed<'a>(s: State<'a>, kind: Answer, a: i64, b: i64, pairs: usize, reply: Reply)
    requires
        keyed(s),
    ensures
        keyed(answer(s, kind, reply).state),
        keyed(quotient(s, a, b, reply).state),
        keyed(verdict(s, pairs, reply).state),
        keyed(negate(s).state),
{
    lemma_stopped_keyed(s);
    match reply {
        Reply::Pair(q, r) => {
            let items = seq![ValueView::Double(q.bits), ValueView::Double(r.bits)];
            assert forall|i: int| 0 <= i < items.len() implies well_keyed(#[trigger] items[i]) by {}
        },
        Reply::Int(q) => {
            lemma_pair_keyed(q, left_over(a, q, b));
        },
        _ => {},
    }
}

proof fn lemma_simple_steps_keyed<'a>(s: State<'a>, span: Span)
    requires
        keyed(s),
    ensures
        s.values.len() >= 1 ==> keyed(without(s, 1)),
        s.values.len() >= 1 ==> keyed(settle(without(s, 1), length(from_end(s, 0), span)).state),
        s.values.len() >= 1 ==> keyed(
            with_value(without(s, 1), ValueView::String(kind_name_of(from_end(s, 0)))),
        ),
        s.values.len() >= 1 ==> keyed(
            with_value(without(s, 1), ValueView::CaseResult(Box::new(from_end(s, 0)))),
        ),
        keyed(with_value(s, ValueView::String("down"@))),
        keyed(State { scopes: closed(s.scopes), ..s }),
        keyed(finish(s).state),
        finish(s).action matches Act::Done(Ok(v)) ==> well_keyed(v),
{
    lemma_stopped_keyed(s);
    if s.values.len() >= 1 {
        lemma_settle_keyed(without(s, 1), length(from_end(s, 0), span));
        assert(well_keyed(from_end(s, 0)));
        assert(well_keyed(ValueView::CaseResult(Box::new(from_end(s, 0)))));
        assert(well_keyed(s.values.last()));
    }
    assert(well_keyed(ValueView::Nil));
    let inner = closed(s.scopes);
    assert forall|d: int| 0 <= d < inner.len() implies keyed_bindings(#[trigger] inner[d]) by {
        assert(inner[d] == s.scopes[d]);
    }
}

proof fn lemma_execute_keyed<'a>(s: State<'a>, st: &'a Stmt)
    requires
        keyed(s),
    ensures
        keyed(execute(s, st).state),
{
    assert(keyed_bindings(Seq::empty()));
    let more = s.scopes.push(Seq::empty());
    assert forall|d: int| 0 <= d < more.len() implies keyed_bindings(#[trigger] more[d]) by {
        if d < s.scopes.len() {
            assert(more[d] == s.scopes[d]);
        }
    }
}

/// A step keeps scopes and values well keyed, unless it evaluates a
/// literal that is not; and the value with which an evaluation ends is
/// well keyed.
pub proof fn lemma_step_keeps_keys<'a>(s: State<'a>, reply: Reply)
    requires
        keyed(s),
        literal_ahead(s) matches Some(v) ==> well_keyed(v),
    ensures
        keyed(step(s, reply).state),
        step(s, reply).action matches Act::Done(Ok(v)) ==> well_keyed(v),
{
    if s.work.len() > 0 {
        let rest = State { work: s.work.drop_last(), ..s };
        lemma_stopped_keyed(rest);
        match s.work.last() {
            Work::Eval(e) => lemma_evaluate_keyed(rest, e),
            Work::Then(e, stage) => lemma_resume_keyed(rest, e, stage),
            Work::Exec(st) => lemma_execute_keyed(rest, st),
            Work::ThenStmt(st, stage) => lemma_proceed_keyed(rest, st, stage),
            Work::Call { args, span } => lemma_call_keyed(rest, args, span),
            Work::Print { args, next } => lemma_print_keyed(rest, args, next),
            Work::Len { span } => lemma_simple_steps_keyed(rest, span),
            Work::Case { args, index } => lemma_case_keyed(rest, args, index),
            Work::Divmod { span } => lemma_apply_divmod_keyed(rest, span),
            Work::Keyword { call, index } => lemma_keyword_keyed(rest, call, index),
            Work::KeywordValue { call, index } => lemma_keyword_keyed(rest, call, index),
            Work::Equal { pairs } => lemma_equal_keyed(rest, pairs),
            Work::Member { items } => lemma_member_keyed(rest, items),
            Work::Found { items } => lemma_member_keyed(rest, items),
            Work::Reply(kind) => lemma_reply_keyed(rest, kind, 0, 0, 0, reply),
            Work::Quotient { a, b } => lemma_reply_keyed(rest, Answer::Int, a, b, 0, reply),
            Work::Verdict { pairs } => lemma_reply_keyed(rest, Answer::Bool, 0, 0, pairs, reply),
            Work::Negate => lemma_reply_keyed(rest, Answer::Bool, 0, 0, 0, reply),
            _ => lemma_simple_steps_keyed(rest, Span { start: 0, end: 0 }),
        }
    } else {
        lemma_simple_steps_keyed(s, Span { start: 0, end: 0 });
    }
}

// ---------------------------------------------------------------------------
// Programs as the parser gives them
// ---------------------------------------------------------------------------
/// The expression is tidy: among other things, none of its literals
/// holds a dictionary with a key that occurs twice.
pub open spec fn plain(e: Expr) -> bool {
    tidy(expr_view(e))
}

/// The statement is tidy.
pub open spec fn plain_statement(st: Stmt) -> bool {
    tidy_statement(stmt_view(st))
}

/// Every expression of the sequence is tidy.
pub open spec fn plain_all(exprs: Seq<Expr>) -> bool {
    forall|i: int| 0 <= i < exprs.len() ==> plain(#[trigger] exprs[i])
}

/// Every statement of the sequence is tidy.
pub open spec fn plain_statements(stmts: Seq<Stmt>) -> bool {
    forall|i: int| 0 <= i < stmts.len() ==> plain_statement(#[trigger] stmts[i])
}

/// The expressions and statements that the piece of work refers to are
/// tidy.
pub open spec fn plain_work<'a>(w: Work<'a>) -> bool {
    match w {
        Work::Eval(e) => plain(*e),
        Work::Then(e, _) => plain(*e),
        Work::Exec(st) => plain_statement(*st),
        Work::ThenStmt(st, _) => plain_statement(*st),
        Work::Call { args, .. } => plain_all(args@),
        Work::Print { args, .. } => plain_all(args@),
        Work::Case { args, .. } => plain_all(args@),
        Work::Keyword { call, .. } => plain(*call),
        Work::KeywordValue { call, .. } => plain(*call),
        _ => true,
    }
}

/// All work refers to tidy expressions and statements only.
pub open spec fn plain_works<'a>(work: Seq<Work<'a>>) -> bool {
    forall|i: int| 0 <= i < work.len() ==> plain_work(#[trigger] work[i])
}

/// The parts of a tidy expression are tidy.
proof fn lemma_parts_plain(e: Expr)
    requires
        plain(e),
    ensures
        match e {
            Expr::Literal { value, .. } => well_keyed(value@),
            Expr::Assign { value, .. } => plain(*value),
            Expr::MultiAssign { value, .. } => plain(*value),
            Expr::Binary { left, right, .. } => plain(*left) && plain(*right),
            Expr::Unary { operand, .. } => plain(*operand),
            Expr::Logical { left, right, .. } => plain(*left) && plain(*right),
            Expr::Call { callee, args, .. } => plain(*callee) && plain_all(args@),
            Expr::CallWithKwargs { callee, positional_args, keyword_args, .. } => {
                &&& plain(*callee)
                &&& plain_all(positional_args@)
                &&& forall|i: int|
                    0 <= i < keyword_args@.len() ==> plain((#[trigger] keyword_args@[i]).value)
            },
            Expr::MultiReturn { values, .. } => plain_all(values@),
            Expr::Grouping { expr, .. } => plain(*expr),
            Expr::List { elements, .. } => plain_all(elements@),
            Expr::Tuple { elements, .. } => plain_all(elements@),
            Expr::Dict { pairs, .. } => forall|i: int|
                0 <= i < pairs@.len() ==> plain((#[trigger] pairs@[i]).0) && plain(pairs@[i].1),
            Expr::PropertyAccess { object, .. } => plain(*object),
            _ => true,
        },
{
    broadcast use group_ast_views;

    match e {
        Expr::Literal { value, span } => {
            assert(expr_view(e) == expr_view(Expr::Literal { value, span }));
        },
        Expr::Assign { name, value, span } => {
            assert(expr_view(e) == expr_view(Expr::Assign { name, value, span }));
        },
        Expr::MultiAssign { targets, value, span } => {
            assert(expr_view(e) == expr_view(Expr::MultiAssign { targets, value, span }));
        },
        Expr::Binary { left, operator, right, span } => {
            assert(expr_view(e) == expr_view(Expr::Binary { left, operator, right, span }));
        },
        Expr::Unary { operator, operand, span } => {
            assert(expr_view(e) == expr_view(Expr::Unary { operator, operand, span }));
        },
        Expr::Logical { left, operator, right, span } => {
            assert(expr_view(e) == expr_view(Expr::Logical { left, operator, right, span }));
        },
        Expr::Call { callee, args, span } => {
            assert(expr_view(e) == expr_view(Expr::Call { callee, args, span }));
            let v = expr_view(e);
            assert(v->Call_args == expr_views(args@));
            assert(forall|i: int| 0 <= i < v->Call_args.len() ==> tidy(#[trigger] v->Call_args[i]));
            lemma_all_plain(args@);
        },
        Expr::CallWithKwargs { callee, positional_args, keyword_args, span } => {
            assert(expr_view(e) == expr_view(
                Expr::CallWithKwargs { callee, positional_args, keyword_args, span },
            ));
            let v = expr_view(e);
            assert(v->CallWithKwargs_positional_args == expr_views(positional_args@));
            assert(v->CallWithKwargs_keyword_args == keyword_views(keyword_args@));
            assert(forall|i: int|
                0 <= i < v->CallWithKwargs_positional_args.len() ==> tidy(
                    #[trigger] v->CallWithKwargs_positional_args[i],
                ));
            assert(forall|i: int|
                0 <= i < v->CallWithKwargs_keyword_args.len() ==> tidy(
                    (#[trigger] v->CallWithKwargs_keyword_args[i]).value,
                ));
            lemma_all_plain(positional_args@);
            assert forall|i: int| 0 <= i < keyword_args@.len() implies plain(
                (#[trigger] keyword_args@[i]).value,
            ) by {
                assert(keyword_views(keyword_args@)[i].value == expr_view(keyword_args@[i].value));
            }
        },
        Expr::MultiReturn { values, span } => {
            assert(expr_view(e) == expr_view(Expr::MultiReturn { values, span }));
            let v = expr_view(e);
            assert(v->MultiReturn_values == expr_views(values@));
            assert(forall|i: int|
                0 <= i < v->MultiReturn_values.len() ==> tidy(#[trigger] v->MultiReturn_values[i]));
            lemma_all_plain(values@);
        },
        Expr::Grouping { expr, span } => {
            assert(expr_view(e) == expr_view(Expr::Grouping { expr, span }));
        },
        Expr::List { elements, span } => {
            assert(expr_view(e) == expr_view(Expr::List { elements, span }));
            let v = expr_view(e);
            assert(v->List_elements == expr_views(elements@));
            assert(forall|i: int|
                0 <= i < v->List_elements.len() ==> tidy(#[trigger] v->List_elements[i]));
            lemma_all_plain(elements@);
        },
        Expr::Tuple { elements, span } => {
            assert(expr_view(e) == expr_view(Expr::Tuple { elements, span }));
            let v = expr_view(e);
            assert(v->Tuple_elements == expr_views(elements@));
            assert(forall|i: int|
                0 <= i < v->Tuple_elements.len() ==> tidy(#[trigger] v->Tuple_elements[i]));
            lemma_all_plain(elements@);
        },
        Expr::Dict { pairs, span } => {
            assert(expr_view(e) == expr_view(Expr::Dict { pairs, span }));
            let v = expr_view(e);
            assert(forall|i: int|
                0 <= i < v->Dict_pairs.len() ==> tidy((#[trigger] v->Dict_pairs[i]).0) && tidy(
                    v->Dict_pairs[i].1,
                ));
            assert forall|i: int| 0 <= i < pairs@.len() implies plain((#[trigger] pairs@[i]).0)
                && plain(pairs@[i].1) by {
                assert(pair_views(pairs@)[i] == (expr_view(pairs@[i].0), expr_view(pairs@[i].1)));
            }
        },
        Expr::PropertyAccess { object, property, span } => {
            assert(expr_view(e) == expr_view(Expr::PropertyAccess { object, property, span }));
        },
        _ => {},
    }
}

/// Expressions whose contents are tidy are tidy.
proof fn lemma_all_plain(exprs: Seq<Expr>)
    requires
        forall|i: int| 0 <= i < exprs.len() ==> tidy(#[trigger] expr_views(exprs)[i]),
    ensures
        plain_all(exprs),
{
    assert forall|i: int| 0 <= i < exprs.len() implies plain(#[trigger] exprs[i]) by {
        assert(expr_views(exprs)[i] == expr_view(exprs[i]));
    }
}

/// The parts of a tidy statement are tidy.
proof fn lemma_statement_parts_plain(st: Stmt)
    requires
        plain_statement(st),
    ensures
        match st {
            Stmt::Expression { expr, .. } => plain(expr),
            Stmt::Block { statements, .. } => plain_statements(statements@),
            Stmt::If { condition, then_branch, else_branch, .. } => {
                &&& plain(condition)
                &&& plain_statement(*then_branch)
                &&& else_branch matches Some(other) ==> plain_statement(*other)
            },
            Stmt::While { condition, body, .. } => plain(condition) && plain_statement(*body),
            Stmt::For { initializer, condition, increment, body, .. } => {
                &&& initializer matches Some(first) ==> plain_statement(*first)
                &&& condition matches Some(c) ==> plain(c)
                &&& increment matches Some(i) ==> plain(i)
                &&& plain_statement(*body)
            },
        },
{
    broadcast use group_ast_views;

    match st {
        Stmt::Expression { expr, span } => {
            assert(stmt_view(st) == stmt_view(Stmt::Expression { expr, span }));
        },
        Stmt::Block { statements, span } => {
            assert(stmt_view(st) == stmt_view(Stmt::Block { statements, span }));
            let v = stmt_view(st);
            assert(v->Block_statements == stmt_views(statements@));
            assert(forall|i: int|
                0 <= i < v->Block_statements.len() ==> tidy_statement(
                    #[trigger] v->Block_statements[i],
                ));
            assert forall|i: int| 0 <= i < statements@.len() implies plain_statement(
                #[trigger] statements@[i],
            ) by {
                assert(stmt_views(statements@)[i] == stmt_view(statements@[i]));
            }
        },
        Stmt::If { condition, then_branch, else_branch, span } => {
            assert(stmt_view(st) == stmt_view(
                Stmt::If { condition, then_branch, else_branch, span },
            ));
        },
        Stmt::While { condition, body, span } => {
            assert(stmt_view(st) == stmt_view(Stmt::While { condition, body, span }));
        },
        Stmt::For { initializer, condition, increment, body, span } => {
            assert(stmt_view(st) == stmt_view(
                Stmt::For { initializer, condition, increment, body, span },
            ));
        },
    }
}

proof fn lemma_evaluations_plain<'a>(work: Seq<Work<'a>>, w: Work<'a>, exprs: &'a Vec<Expr>)
    requires
        plain_works(work),
        plain_work(w),
        plain_all(exprs@),
    ensures
        plain_works(work.push(w) + evaluations(exprs)),
{
    let all = work.push(w) + evaluations(exprs);
    assert forall|i: int| 0 <= i < all.len() implies plain_work(#[trigger] all[i]) by {
        if i < work.len() {
            assert(all[i] == work[i]);
        } else if i == work.len() {
        } else {
            let k = i - work.len() - 1;
            assert(all[i] == evaluations(exprs)[k]);
            assert(plain(exprs@[exprs@.len() - 1 - k]));
        }
    }
}

proof fn lemma_executions_plain<'a>(work: Seq<Work<'a>>, w: Work<'a>, stmts: &'a Vec<Stmt>)
    requires
        plain_works(work),
        plain_work(w),
        plain_statements(stmts@),
    ensures
        plain_works(work.push(w) + executions(stmts)),
        plain_works(executions(stmts)),
{
    let all = work.push(w) + executions(stmts);
    assert forall|i: int| 0 <= i < all.len() implies plain_work(#[trigger] all[i]) by {
        if i < work.len() {
            assert(all[i] == work[i]);
        } else if i == work.len() {
        } else {
            let k = i - work.len() - 1;
            assert(all[i] == executions(stmts)[k]);
            assert(plain_statement(stmts@[stmts@.len() - 1 - k]));
        }
    }
    assert forall|k: int| 0 <= k < executions(stmts).len() implies plain_work(
        #[trigger] executions(stmts)[k],
    ) by {
        assert(plain_statement(stmts@[stmts@.len() - 1 - k]));
    }
}

proof fn lemma_evaluate_plain<'a>(s: State<'a>, e: &'a Expr)
    requires
        plain_works(s.work),
        plain(*e),
    ensures
        plain_works(evaluate(s, e).state.work),
{
    lemma_parts_plain(*e);
    match *e {
        Expr::MultiReturn { values, .. } => lemma_evaluations_plain(s.work, Work::Then(e, 1), &values),
        Expr::List { elements, .. } => lemma_evaluations_plain(s.work, Work::Then(e, 1), &elements),
        Expr::Tuple { elements, .. } => lemma_evaluations_plain(s.work, Work::Then(e, 1), &elements),
        Expr::Dict { pairs, .. } => {
            if pairs@.len() > 0 {
                assert(plain(pairs@[0].0) && plain(pairs@[0].1));
            }
        },
        _ => {},
    }
}

proof fn lemma_resume_plain<'a>(s: State<'a>, e: &'a Expr, stage: usize)
    requires
        plain_works(s.work),
        plain(*e),
    ensures
        plain_works(resume(s, e, stage).state.work),
{
    lemma_parts_plain(*e);
    match *e {
        Expr::Binary { operator, span, .. } => {
            if s.values.len() >= 2 {
                lemma_operate_plain(without(s, 2), binary(operator, from_end(s, 1), from_end(s, 0), span));
            }
        },
        Expr::CallWithKwargs { positional_args, .. } => {
            if positional_args@.len() == 2 {
                assert(plain(positional_args@[0]) && plain(positional_args@[1]));
            }
        },
        Expr::Dict { pairs, .. } => {
            if stage + 1 < pairs@.len() {
                assert(plain(pairs@[stage + 1].0) && plain(pairs@[stage + 1].1));
            }
        },
        _ => {},
    }
}

proof fn lemma_operate_plain<'a>(s: State<'a>, outcome: OperationView)
    requires
        plain_works(s.work),
    ensures
        plain_works(operate(s, outcome).state.work),
{
}

proof fn lemma_call_plain<'a>(s: State<'a>, args: &'a Vec<Expr>, span: Span, next: usize, index: usize)
    requires
        plain_works(s.work),
        plain_all(args@),
    ensures
        plain_works(call(s, args, span).state.work),
        plain_works(print(s, args, next).state.work),
        plain_works(case(s, args, index).state.work),
{
    if args@.len() > 0 {
        assert(plain(args@[0]));
    }
    if args@.len() > 1 {
        assert(plain(args@[1]));
    }
    if next < args@.len() {
        assert(plain(args@[next as int]));
    }
    if index + 1 < args@.len() {
        assert(plain(args@[index + 1]));
    }
    if index + 2 < args@.len() {
        assert(plain(args@[index + 2]));
    }
}

proof fn lemma_keyword_plain<'a>(s: State<'a>, e: &'a Expr, index: usize)
    requires
        plain_works(s.work),
        plain(*e),
    ensures
        plain_works(keyword(s, e, index).state.work),
        plain_works(keyword_value(s, e, index).state.work),
{
    lemma_parts_plain(*e);
    match *e {
        Expr::CallWithKwargs { keyword_args, .. } => {
            if index < keyword_args@.len() {
                assert(plain(keyword_args@[index as int].value));
            }
        },
        _ => {},
    }
}

proof fn lemma_execute_plain<'a>(s: State<'a>, st: &'a Stmt, stage: usize)
    requires
        plain_works(s.work),
        plain_statement(*st),
    ensures
        plain_works(execute(s, st).state.work),
        plain_works(proceed(s, st, stage).state.work),
{
    lemma_statement_parts_plain(*st);
    match *st {
        Stmt::Block { statements, .. } => lemma_executions_plain(s.work, Work::CloseScope, &statements),
        _ => {},
    }
}

proof fn lemma_other_steps_plain<'a>(s: State<'a>, span: Span, n: usize, a: i64, b: i64, kind: Answer, reply: Reply)
    requires
        plain_works(s.work),
    ensures
        plain_works(equal(s, n).state.work),
        plain_works(verdict(s, n, reply).state.work),
        plain_works(member(s, n).state.work),
        plain_works(found(s, n).state.work),
        plain_works(negate(s).state.work),
        plain_works(answer(s, kind, reply).state.work),
        plain_works(quotient(s, a, b, reply).state.work),
        plain_works(apply_divmod(s, span).state.work),
        plain_works(finish(s).state.work),
        s.values.len() >= 1 ==> plain_works(
            settle(without(s, 1), length(from_end(s, 0), span)).state.work,
        ),
{
    if s.values.len() >= 3 {
        match from_end(s, 0) {
            ValueView::String(mode) => lemma_operate_plain(
                without(s, 3),
                divmod(from_end(s, 2), from_end(s, 1), mode, span),
            ),
            _ => {},
        }
    }
}

/// A step keeps the work to tidy expressions and statements.
pub proof fn lemma_step_keeps_plain<'a>(s: State<'a>, reply: Reply)
    requires
        plain_works(s.work),
    ensures
        plain_works(step(s, reply).state.work),
        literal_ahead(s) matches Some(v) ==> well_keyed(v),
{
    if s.work.len() > 0 {
        let rest = State { work: s.work.drop_last(), ..s };
        let top = s.work.last();
        assert(plain_work(top));
        assert forall|i: int| 0 <= i < rest.work.len() implies plain_work(#[trigger] rest.work[i]) by {
            assert(rest.work[i] == s.work[i]);
        }
        match top {
            Work::Eval(e) => {
                lemma_parts_plain(*e);
                lemma_evaluate_plain(rest, e);
            },
            Work::Then(e, stage) => lemma_resume_plain(rest, e, stage),
            Work::Exec(st) => lemma_execute_plain(rest, st, 0),
            Work::ThenStmt(st, stage) => lemma_execute_plain(rest, st, stage),
            Work::Call { args, span } => lemma_call_plain(rest, args, span, 0, 0),
            Work::Print { args, next } => lemma_call_plain(
                rest,
                args,
                Span { start: 0, end: 0 },
                next,
                0,
            ),
            Work::Case { args, index } => lemma_call_plain(
                rest,
                args,
                Span { start: 0, end: 0 },
                0,
                index,
            ),
            Work::Keyword { call, index } => lemma_keyword_plain(rest, call, index),
            Work::KeywordValue { call, index } => lemma_keyword_plain(rest, call, index),
            Work::Len { span } => lemma_other_steps_plain(rest, span, 0, 0, 0, Answer::Int, reply),
            Work::Divmod { span } => lemma_other_steps_plain(rest, span, 0, 0, 0, Answer::Int, reply),
            Work::Equal { pairs } => lemma_other_steps_plain(
                rest,
                Span { start: 0, end: 0 },
                pairs,
                0,
                0,
                Answer::Int,
                reply,
            ),
            Work::Verdict { pairs } => lemma_other_steps_plain(
                rest,
                Span { start: 0, end: 0 },
                pairs,
                0,
                0,
                Answer::Int,
                reply,
            ),
            Work::Member { items } => lemma_other_steps_plain(
                rest,
                Span { start: 0, end: 0 },
                items,
                0,
                0,
                Answer::Int,
                reply,
            ),
            Work::Found { items } => lemma_other_steps_plain(
                rest,
                Span { start: 0, end: 0 },
                items,
                0,
                0,
                Answer::Int,
                reply,
            ),
            Work::Reply(kind) => lemma_other_steps_plain(
                rest,
                Span { start: 0, end: 0 },
                0,
                0,
                0,
                kind,
                reply,
            ),
            Work::Quotient { a, b } => lemma_other_steps_plain(
                rest,
                Span { start: 0, end: 0 },
                0,
                a,
                b,
                Answer::Int,
                reply,
            ),
            _ => lemma_other_steps_plain(rest, Span { start: 0, end: 0 }, 0, 0, 0, Answer::Int, reply),
        }
    }
}

/// Keys stay unique through an evaluation: from a state whose scopes and
/// values are well keyed and whose work is on tidy expressions and
/// statements, any number of steps lead to such a state, and the value
/// with which the evaluation ends is well keyed.
pub proof fn lemma_keys_stay_unique<'a>(s: State<'a>, reply: Reply, n: nat)
    requires
        keyed(s),
        plain_works(s.work),
    ensures
        keyed(steps(s, reply, n).state),
        plain_works(steps(s, reply, n).state.work),
        steps(s, reply, n).action matches Act::Done(Ok(v)) ==> well_keyed(v),
    decreases n,
{
    if n > 0 {
        lemma_step_keeps_plain(s, reply);
        lemma_step_keeps_keys(s, reply);
        let first = step(s, reply);
        if first.action is Continue {
            lemma_keys_stay_unique(first.state, Reply::Nothing, (n - 1) as nat);
        }
    }
}

/// The program of a source text is tidy.
pub proof fn lemma_programs_are_plain(source: Seq<char>, statements: Seq<Stmt>)
    requires
        byte_len(source) + 1 < usize::MAX,
        program_of(source) == Ok::<Seq<StmtView>, ErrorView>(stmt_views(statements)),
    ensures
        plain_statements(statements),
{
    lemma_source_spans_in_order(source);
    let views = stmt_views(statements);
    assert forall|i: int| 0 <= i < statements.len() implies plain_statement(
        #[trigger] statements[i],
    ) by {
        assert(views[i] == stmt_view(statements[i]));
        assert(tidy_statement(views[i]));
    }
}

/// The evaluation of a tidy program in scopes that are well keyed
/// starts in a state from which keys stay unique.
pub proof fn lemma_program_starts_keyed<'a>(scopes: Scopes, statements: &'a Vec<Stmt>)
    requires
        keyed_scopes(scopes),
        plain_statements(statements@),
    ensures
        keyed(program_start(scopes, statements)),
        plain_works(program_start(scopes, statements).work),
{
    assert forall|k: int| 0 <= k < executions(statements).len() implies plain_work(
        #[trigger] executions(statements)[k],
    ) by {
        assert(plain_statement(statements@[statements@.len() - 1 - k]));
    }
}

/// The evaluation of a tidy expression in scopes that are well keyed
/// starts in a state from which keys stay unique.
pub proof fn lemma_expression_starts_keyed<'a>(scopes: Scopes, e: &'a Expr)
    requires
        keyed_scopes(scopes),
        plain(*e),
    ensures
        keyed(expression_start(scopes, e)),
        plain_works(expression_start(scopes, e).work),
{
}

/// The expression of a tidy expression statement is tidy.
pub proof fn lemma_statement_of_expression(st: Stmt)
    requires
        plain_statement(st),
        st is Expression,
    ensures
        plain(st->Expression_expr),
{
    lemma_statement_parts_plain(st);
}

} // verus!
