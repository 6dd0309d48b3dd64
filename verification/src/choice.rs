//! `case` takes the first condition that holds.
//!
//! The conditions of a call of `case` are evaluated one after the other,
//! up to the first that holds; then the result that is paired with it is
//! evaluated, and nothing else of the call's arguments: no result that
//! is paired with a condition that failed, and no condition or result
//! after the pair that was taken.
use crate::ast::Expr;
use crate::environment::Scopes;
use crate::error::Span;
use crate::host::Reply;
use crate::machine::{step, with_work, State, Work};
use crate::value::{truthy, ValueView};
use vstd::prelude::*;
use vstd::string::*;

verus! {

/// `case` takes the first condition that holds, one step at a time.
/// After a condition was evaluated, the step of `case` plans, on top of
/// the work beneath the call, nothing but this: if the condition holds,
/// the result paired with it, to be wrapped, and no later condition or
/// result; if it does not hold, the next condition, and not the result
/// paired with the one that failed; if none is left, nothing, and the
/// call's value is the wrapped nil. The step changes no scope.
pub proof fn lemma_case_takes_the_first<'a>(
    s: State<'a>,
    args: &'a Vec<Expr>,
    index: usize,
    reply: Reply,
)
    requires
        s.work.len() > 0,
        s.work.last() == (Work::Case { args, index }),
        s.values.len() >= 1,
        index + 1 < args@.len(),
    ensures
        step(s, reply).action is Continue,
        step(s, reply).state.scopes == s.scopes,
        truthy(s.values.last()) ==> step(s, reply).state.work == s.work.drop_last().push(
            Work::Wrap,
        ).push(Work::Eval(&args@[index + 1])) && step(s, reply).state.values
            == s.values.drop_last(),
        !truthy(s.values.last()) && index + 3 < args@.len() ==> step(s, reply).state.work
            == s.work.drop_last().push(Work::Case { args, index: (index + 2) as usize }).push(
            Work::Eval(&args@[index + 2]),
        ) && step(s, reply).state.values == s.values.drop_last(),
        !truthy(s.values.last()) && index + 3 >= args@.len() ==> step(s, reply).state.work
            == s.work.drop_last() && step(s, reply).state.values == s.values.drop_last().push(
            ValueView::CaseResult(Box::new(ValueView::Nil)),
        ),
{
    assert(s.values.subrange(0, s.values.len() - 1) =~= s.values.drop_last());
}

/// A call of `case` begins with its first condition, and nothing else of
/// its arguments.
pub proof fn lemma_case_begins_with_the_first_condition<'a>(
    s: State<'a>,
    args: &'a Vec<Expr>,
    span: Span,
    reply: Reply,
)
    requires
        s.work.len() > 0,
        s.work.last() == (Work::Call { args, span }),
        s.values.len() >= 1,
        s.values.last() == ValueView::String(crate::machine::case_marker()),
        args@.len() >= 2,
        args@.len() % 2 == 0,
    ensures
        step(s, reply).action is Continue,
        step(s, reply).state.scopes == s.scopes,
        step(s, reply).state.values == s.values.drop_last(),
        step(s, reply).state.work == s.work.drop_last().push(Work::Case { args, index: 0 }).push(
            Work::Eval(&args@[0]),
        ),
{
    assert(s.values.subrange(0, s.values.len() - 1) =~= s.values.drop_last());
    reveal_strlit("__builtin_case__");
    reveal_strlit("__builtin_print__");
    reveal_strlit("__builtin_len__");
    reveal_strlit("__builtin_type__");
    assert("__builtin_case__"@ != "__builtin_print__"@) by {
        assert("__builtin_case__"@.len() != "__builtin_print__"@.len());
    }
    assert("__builtin_case__"@ != "__builtin_len__"@) by {
        assert("__builtin_case__"@.len() != "__builtin_len__"@.len());
    }
    assert("__builtin_case__"@ != "__builtin_type__"@) by {
        assert("__builtin_case__"@[10] != "__builtin_type__"@[10]);
    }
}

// ---------------------------------------------------------------------------
// Whole evaluations
// ---------------------------------------------------------------------------
/// The state after a step.
#[verifier::opaque]
pub open spec fn onward<'a>(s: State<'a>, reply: Reply) -> State<'a> {
    step(s, reply).state
}

/// The state after one step for each reply, in order.
pub open spec fn walk<'a>(s: State<'a>, replies: Seq<Reply>) -> State<'a>
    decreases replies.len(),
{
    if replies.len() == 0 {
        s
    } else {
        onward(walk(s, replies.drop_last()), replies.last())
    }
}

/// What the step of `case` leads to, after a condition was evaluated.
proof fn lemma_case_goes_on<'a>(s: State<'a>, beneath: Seq<Work<'a>>, args: &'a Vec<Expr>, k: int)
    requires
        0 <= k,
        2 * k + 1 < args@.len(),
        s.work == beneath.push(Work::Case { args, index: (2 * k) as usize }),
        s.values.len() >= 1,
    ensures
        onward(s, Reply::Nothing).scopes == s.scopes,
        truthy(s.values.last()) ==> onward(s, Reply::Nothing).work == beneath.push(
            Work::Wrap,
        ).push(Work::Eval(&args@[2 * k + 1])) && onward(s, Reply::Nothing).values
            == s.values.drop_last(),
        !truthy(s.values.last()) && 2 * k + 3 < args@.len() ==> onward(s, Reply::Nothing).work
            == beneath.push(Work::Case { args, index: (2 * (k + 1)) as usize }).push(
            Work::Eval(&args@[2 * (k + 1)]),
        ) && onward(s, Reply::Nothing).values == s.values.drop_last(),
        !truthy(s.values.last()) && 2 * k + 3 >= args@.len() ==> onward(s, Reply::Nothing).work
            == beneath && onward(s, Reply::Nothing).values == s.values.drop_last().push(
            ValueView::CaseResult(Box::new(ValueView::Nil)),
        ),
{
    reveal(onward);
    assert(args@.len() == args.len());
    let index = (2 * k) as usize;
    assert(index == 2 * k);
    assert((index + 2) as usize == 2 * (k + 1));
    assert(s.work.drop_last() =~= beneath);
    assert(s.work.last() == (Work::Case { args, index }));
    lemma_case_takes_the_first(s, args, index, Reply::Nothing);
}

/// What the step of `Wrap` leads to.
proof fn lemma_wrap_goes_on<'a>(s: State<'a>, beneath: Seq<Work<'a>>)
    requires
        s.work == beneath.push(Work::Wrap),
        s.values.len() >= 1,
    ensures
        onward(s, Reply::Nothing) == (State {
            scopes: s.scopes,
            work: beneath,
            values: s.values.drop_last().push(ValueView::CaseResult(Box::new(s.values.last()))),
        }),
{
    reveal(onward);
    assert(s.work.drop_last() =~= beneath);
    assert(s.values.subrange(0, s.values.len() - 1) =~= s.values.drop_last());
}

/// Steps that are taken one after the other are steps of one walk.
pub proof fn lemma_walk_on<'a>(s: State<'a>, first: Seq<Reply>, then: Seq<Reply>)
    ensures
        walk(s, first + then) == walk(walk(s, first), then),
    decreases then.len(),
{
    if then.len() == 0 {
        assert(first + then =~= first);
    } else {
        lemma_walk_on(s, first, then.drop_last());
        assert((first + then).drop_last() =~= first + then.drop_last());
        assert((first + then).last() == then.last());
    }
}

/// The evaluation of `e` on top of the work of `s`, with the replies of
/// the host to its steps: it leaves the value `v` on top of the values
/// and the scopes `after`, and before its last step the work of `s` was
/// never all that was left.
pub open spec fn evaluates<'a>(
    s: State<'a>,
    e: &'a Expr,
    replies: Seq<Reply>,
    v: ValueView,
    after: Scopes,
) -> bool {
    &&& walk(with_work(s, Work::Eval(e)), replies) == (State {
        scopes: after,
        work: s.work,
        values: s.values.push(v),
    })
    &&& forall|j: int|
        0 <= j < replies.len() ==> (#[trigger] walk(
            with_work(s, Work::Eval(e)),
            replies.take(j),
        )).work.len() > s.work.len()
}

/// A literal is evaluated in one step, and its value is what it holds.
pub proof fn lemma_literal_evaluates<'a>(s: State<'a>, e: &'a Expr)
    requires
        *e is Literal,
    ensures
        evaluates(s, e, seq![Reply::Nothing], e->Literal_value@, s.scopes),
{
    reveal(onward);
    let start = with_work(s, Work::Eval(e));
    let replies = seq![Reply::Nothing];
    assert(replies.drop_last() =~= Seq::<Reply>::empty());
    assert(walk(start, replies.drop_last()) == start);
    assert(start.work.drop_last() =~= s.work);
    assert(walk(start, replies) == onward(start, Reply::Nothing));
    assert forall|j: int| 0 <= j < replies.len() implies (#[trigger] walk(
        start,
        replies.take(j),
    )).work.len() > s.work.len() by {
        assert(replies.take(0) =~= Seq::<Reply>::empty());
    }
}

/// The call of `case` at condition `k`: the condition is to be
/// evaluated next, in the given scopes, and the call goes on after it.
pub open spec fn at_condition<'a>(
    s: State<'a>,
    args: &'a Vec<Expr>,
    k: int,
    scopes: Scopes,
) -> State<'a> {
    State {
        scopes,
        work: s.work.push(Work::Case { args, index: (2 * k) as usize }).push(
            Work::Eval(&args@[2 * k]),
        ),
        values: s.values,
    }
}

/// The first `k` conditions are evaluated and fail: condition `i` is
/// evaluated in the scopes that the one before it left, with the replies
/// `runs[i]`, and its value `values[i]` does not hold.
pub open spec fn conditions_fail<'a>(
    s: State<'a>,
    args: &'a Vec<Expr>,
    runs: Seq<Seq<Reply>>,
    values: Seq<ValueView>,
    scopes: Seq<Scopes>,
    k: int,
) -> bool {
    &&& 0 <= k <= runs.len()
    &&& k <= values.len()
    &&& k < scopes.len()
    &&& 2 * k <= args@.len()
    &&& forall|i: int|
        0 <= i < k ==> !truthy(#[trigger] values[i]) && evaluates(
            State {
                scopes: scopes[i],
                work: s.work.push(Work::Case { args, index: (2 * i) as usize }),
                values: s.values,
            },
            &args@[2 * i],
            runs[i],
            values[i],
            scopes[i + 1],
        )
}

/// The replies to the steps of the first `k` conditions: those of each
/// evaluation, and one to the step of `case` after it.
pub open spec fn replies_of(runs: Seq<Seq<Reply>>, k: int) -> Seq<Reply>
    decreases k,
{
    if k <= 0 {
        Seq::empty()
    } else {
        replies_of(runs, k - 1) + runs[k - 1].push(Reply::Nothing)
    }
}

/// One condition more: the condition at pair `k` is evaluated and the
/// step of `case` after it is taken.
proof fn lemma_condition_then_case<'a>(
    s: State<'a>,
    args: &'a Vec<Expr>,
    run: Seq<Reply>,
    v: ValueView,
    scopes: Scopes,
    after: Scopes,
    k: int,
)
    requires
        0 <= k,
        2 * k + 1 < args@.len(),
        evaluates(
            State {
                scopes,
                work: s.work.push(Work::Case { args, index: (2 * k) as usize }),
                values: s.values,
            },
            &args@[2 * k],
            run,
            v,
            after,
        ),
    ensures
        walk(at_condition(s, args, k, scopes), run.push(Reply::Nothing)) == (if truthy(v) {
            State {
                scopes: after,
                work: s.work.push(Work::Wrap).push(Work::Eval(&args@[2 * k + 1])),
                values: s.values,
            }
        } else if 2 * k + 3 < args@.len() {
            at_condition(s, args, k + 1, after)
        } else {
            State {
                scopes: after,
                work: s.work,
                values: s.values.push(ValueView::CaseResult(Box::new(ValueView::Nil))),
            }
        }),
{
    let start = at_condition(s, args, k, scopes);
    let beneath = State {
        scopes,
        work: s.work.push(Work::Case { args, index: (2 * k) as usize }),
        values: s.values,
    };
    assert(start == with_work(beneath, Work::Eval(&args@[2 * k])));
    let evaluated = walk(start, run);
    assert(run.push(Reply::Nothing).drop_last() =~= run);
    assert(walk(start, run.push(Reply::Nothing)) == onward(evaluated, Reply::Nothing));
    lemma_case_goes_on(evaluated, s.work, args, k);
    assert(evaluated.values.drop_last() =~= s.values);
}

/// After conditions that fail, the next condition is evaluated: when
/// the first `k` conditions have failed and another pair follows, all
/// that the call has done is to evaluate these conditions, in order, and
/// what it does next is to evaluate condition `k`. No result was
/// evaluated.
pub proof fn lemma_failed_conditions_are_skipped<'a>(
    s: State<'a>,
    args: &'a Vec<Expr>,
    runs: Seq<Seq<Reply>>,
    values: Seq<ValueView>,
    scopes: Seq<Scopes>,
    k: int,
)
    requires
        conditions_fail(s, args, runs, values, scopes, k),
        2 * k + 1 < args@.len(),
    ensures
        walk(at_condition(s, args, 0, scopes[0]), replies_of(runs, k)) == at_condition(
            s,
            args,
            k,
            scopes[k],
        ),
    decreases k,
{
    let start = at_condition(s, args, 0, scopes[0]);
    if k > 0 {
        lemma_failed_conditions_are_skipped(s, args, runs, values, scopes, k - 1);
        assert(!truthy(values[k - 1]));
        lemma_condition_then_case(
            s,
            args,
            runs[k - 1],
            values[k - 1],
            scopes[k - 1],
            scopes[k],
            k - 1,
        );
        lemma_walk_on(start, replies_of(runs, k - 1), runs[k - 1].push(Reply::Nothing));
    }
}

/// The first condition that holds is taken: when the first `k`
/// conditions have failed and condition `k` holds, the call goes on to
/// evaluate the result that is paired with condition `k`, to wrap it,
/// and nothing else: no work is left for a later condition or result.
pub proof fn lemma_first_condition_that_holds_is_taken<'a>(
    s: State<'a>,
    args: &'a Vec<Expr>,
    runs: Seq<Seq<Reply>>,
    values: Seq<ValueView>,
    scopes: Seq<Scopes>,
    k: int,
)
    requires
        conditions_fail(s, args, runs, values, scopes, k),
        2 * k + 1 < args@.len(),
        k < runs.len(),
        k < values.len(),
        k + 1 < scopes.len(),
        truthy(values[k]),
        evaluates(
            State {
                scopes: scopes[k],
                work: s.work.push(Work::Case { args, index: (2 * k) as usize }),
                values: s.values,
            },
            &args@[2 * k],
            runs[k],
            values[k],
            scopes[k + 1],
        ),
    ensures
        walk(at_condition(s, args, 0, scopes[0]), replies_of(runs, k + 1)) == (State {
            scopes: scopes[k + 1],
            work: s.work.push(Work::Wrap).push(Work::Eval(&args@[2 * k + 1])),
            values: s.values,
        }),
{
    let start = at_condition(s, args, 0, scopes[0]);
    lemma_failed_conditions_are_skipped(s, args, runs, values, scopes, k);
    lemma_condition_then_case(s, args, runs[k], values[k], scopes[k], scopes[k + 1], k);
    lemma_walk_on(start, replies_of(runs, k), runs[k].push(Reply::Nothing));
}

/// The value of the call is the result of the pair that was taken,
/// wrapped: when the result that is paired with the first condition
/// that holds has been evaluated, its value is wrapped, and the work of
/// the call is done.
pub proof fn lemma_taken_result_is_wrapped<'a>(
    s: State<'a>,
    result: &'a Expr,
    scopes: Scopes,
    replies: Seq<Reply>,
    v: ValueView,
    after: Scopes,
)
    requires
        evaluates(
            State { scopes, work: s.work.push(Work::Wrap), values: s.values },
            result,
            replies,
            v,
            after,
        ),
    ensures
        walk(
            State {
                scopes,
                work: s.work.push(Work::Wrap).push(Work::Eval(result)),
                values: s.values,
            },
            replies.push(Reply::Nothing),
        ) == (State {
            scopes: after,
            work: s.work,
            values: s.values.push(ValueView::CaseResult(Box::new(v))),
        }),
{
    let beneath = State { scopes, work: s.work.push(Work::Wrap), values: s.values };
    let start = State {
        scopes,
        work: s.work.push(Work::Wrap).push(Work::Eval(result)),
        values: s.values,
    };
    assert(start == with_work(beneath, Work::Eval(result)));
    assert(replies.push(Reply::Nothing).drop_last() =~= replies);
    let evaluated = walk(start, replies);
    assert(walk(start, replies.push(Reply::Nothing)) == onward(evaluated, Reply::Nothing));
    lemma_wrap_goes_on(evaluated, s.work);
    assert(evaluated.values.drop_last() =~= s.values);
}

/// Where no condition holds, the value of the call is the wrapped nil:
/// when all `k` conditions of a call with `k` pairs have failed, no
/// result was evaluated, and the work of the call is done.
pub proof fn lemma_no_condition_holds<'a>(
    s: State<'a>,
    args: &'a Vec<Expr>,
    runs: Seq<Seq<Reply>>,
    values: Seq<ValueView>,
    scopes: Seq<Scopes>,
    k: int,
)
    requires
        conditions_fail(s, args, runs, values, scopes, k),
        k >= 1,
        2 * k == args@.len(),
    ensures
        walk(at_condition(s, args, 0, scopes[0]), replies_of(runs, k)) == (State {
            scopes: scopes[k],
            work: s.work,
            values: s.values.push(ValueView::CaseResult(Box::new(ValueView::Nil))),
        }),
{
    let start = at_condition(s, args, 0, scopes[0]);
    assert(conditions_fail(s, args, runs, values, scopes, k - 1));
    lemma_failed_conditions_are_skipped(s, args, runs, values, scopes, k - 1);
    assert(!truthy(values[k - 1]));
    lemma_condition_then_case(
        s,
        args,
        runs[k - 1],
        values[k - 1],
        scopes[k - 1],
        scopes[k],
        k - 1,
    );
    lemma_walk_on(start, replies_of(runs, k - 1), runs[k - 1].push(Reply::Nothing));
}

} // verus!
