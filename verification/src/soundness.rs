//! An evaluation never gets lost.
//!
//! Every piece of work takes some values and leaves some. A state is
//! sound if the values at hand are what the work on top takes, and what
//! each piece of work leaves is what the work beneath it takes. The
//! states in which evaluations start are sound, and a step from a sound
//! state, with a reply that answers the request before it, leads to a
//! sound state: it never finds a value or a reply missing.
use crate::ast::{Expr, Stmt};
use crate::error::Span;
use crate::host::{fitting, Answer, Reply};
use crate::machine::{
    answer, apply_divmod, call, case, collect, differ, equal, evaluate, evaluations, execute,
    executions, expression_start, found, from_end, insert_entry, keyword, keyword_call,
    keyword_value, member, negate, operate, paired, print, proceed, program_start, quotient, resume,
    settle, step, steps, verdict, with_value, without, State, Stepped, Work,
};
use crate::operations::{Operation, OperationView, Pairing};
use crate::value::ValueView;
use vstd::prelude::*;

verus! {

/// What is known of a value that work leaves or takes.
#[derive(PartialEq, Eq, Structural)]
pub enum Kind {
    Any,
    Bool,
    Text,
    Dict,
}

/// The kind of a value.
pub open spec fn kind_of(v: ValueView) -> Kind {
    match v {
        ValueView::Bool(_) => Kind::Bool,
        ValueView::String(_) => Kind::Text,
        ValueView::Dict(_) => Kind::Dict,
        _ => Kind::Any,
    }
}

/// The kinds of the values, in order.
pub open spec fn kinds(values: Seq<ValueView>) -> Seq<Kind> {
    Seq::new(values.len(), |i: int| kind_of(values[i]))
}

/// Whether a value of kind `have` can stand where kind `want` is taken.
pub open spec fn suits(have: Kind, want: Kind) -> bool {
    want == Kind::Any || have == want
}

/// `n` values of any kind.
pub open spec fn any(n: int) -> Seq<Kind> {
    Seq::new(
        if n >= 0 {
            n as nat
        } else {
            0
        },
        |i: int| Kind::Any,
    )
}

/// Whether the piece of work is one that an evaluation schedules.
pub open spec fn proper<'a>(w: Work<'a>) -> bool {
    match w {
        Work::Then(e, stage) => match *e {
            Expr::Assign { .. } => true,
            Expr::MultiAssign { .. } => true,
            Expr::Binary { .. } => true,
            Expr::Unary { .. } => true,
            Expr::Logical { .. } => true,
            Expr::CallWithKwargs { .. } => true,
            Expr::MultiReturn { .. } => true,
            Expr::List { .. } => true,
            Expr::Tuple { .. } => true,
            Expr::Dict { pairs, .. } => stage < pairs@.len(),
            Expr::PropertyAccess { .. } => true,
            _ => false,
        },
        Work::ThenStmt(st, stage) => match *st {
            Stmt::If { .. } => true,
            Stmt::While { .. } => true,
            Stmt::For { .. } => 1 <= stage <= 3,
            _ => false,
        },
        Work::Print { args, next } => next <= args@.len(),
        Work::Case { args, index } => index + 1 < args@.len(),
        Work::Keyword { call, index } => match *call {
            Expr::CallWithKwargs { keyword_args, .. } => index <= keyword_args@.len(),
            _ => false,
        },
        Work::KeywordValue { call, index } => match *call {
            Expr::CallWithKwargs { keyword_args, .. } => index < keyword_args@.len(),
            _ => false,
        },
        _ => true,
    }
}

/// The kinds of the values that the piece of work takes, the last on top.
pub open spec fn takes<'a>(w: Work<'a>) -> Seq<Kind> {
    match w {
        Work::Eval(_) => any(0),
        Work::Then(e, _) => match *e {
            Expr::Binary { .. } => any(2),
            Expr::MultiReturn { values, .. } => any(values@.len() as int),
            Expr::List { elements, .. } => any(elements@.len() as int),
            Expr::Tuple { elements, .. } => any(elements@.len() as int),
            Expr::Dict { .. } => seq![Kind::Dict, Kind::Any, Kind::Any],
            _ => any(1),
        },
        Work::Exec(_) => any(0),
        Work::ThenStmt(st, stage) => match *st {
            Stmt::For { .. } => if stage == 2 {
                any(1)
            } else {
                any(0)
            },
            _ => any(1),
        },
        Work::Discard => any(1),
        Work::CloseScope => any(0),
        Work::Call { .. } => any(1),
        Work::Print { .. } => any(1),
        Work::Len { .. } => any(1),
        Work::TypeOf => any(1),
        Work::Case { .. } => any(1),
        Work::Wrap => any(1),
        Work::Mode => any(0),
        Work::Divmod { .. } => seq![Kind::Any, Kind::Any, Kind::Text],
        Work::Keyword { .. } => seq![Kind::Any, Kind::Any, Kind::Text],
        Work::KeywordValue { .. } => seq![Kind::Any, Kind::Any, Kind::Text, Kind::Any],
        Work::Equal { pairs } => any(2 * pairs),
        Work::Verdict { pairs } => any(2 * pairs),
        Work::Negate => seq![Kind::Bool],
        Work::Member { items } => any(items + 1),
        Work::Found { items } => any(items + 1).push(Kind::Bool),
        Work::Reply(_) => any(0),
        Work::Quotient { .. } => any(0),
    }
}

/// The kinds of the values that the piece of work leaves in their place.
pub open spec fn gives<'a>(w: Work<'a>) -> Seq<Kind> {
    match w {
        Work::Then(e, _) => match *e {
            Expr::Dict { .. } => seq![Kind::Dict],
            _ => any(1),
        },
        Work::Exec(_) => any(0),
        Work::ThenStmt(_, _) => any(0),
        Work::Discard => any(0),
        Work::CloseScope => any(0),
        Work::Mode => seq![Kind::Text],
        Work::Equal { .. } => seq![Kind::Bool],
        Work::Verdict { .. } => seq![Kind::Bool],
        Work::Negate => seq![Kind::Bool],
        Work::Member { .. } => seq![Kind::Bool],
        Work::Found { .. } => seq![Kind::Bool],
        _ => any(1),
    }
}

/// Whether the values on top are of the kinds that are taken.
pub open spec fn accepts(stack: Seq<Kind>, taken: Seq<Kind>) -> bool {
    &&& stack.len() >= taken.len()
    &&& forall|i: int|
        0 <= i < taken.len() ==> suits(stack[stack.len() - taken.len() + i], #[trigger] taken[i])
}

/// The kinds of the values after a piece of work is done, if the values
/// before it are what it takes.
pub open spec fn done<'a>(w: Work<'a>, stack: Option<Seq<Kind>>) -> Option<Seq<Kind>> {
    match stack {
        Some(k) => if proper(w) && accepts(k, takes(w)) {
            Some(k.subrange(0, k.len() - takes(w).len()) + gives(w))
        } else {
            None
        },
        None => None,
    }
}

/// The kinds of the values after all the work is done, the last piece
/// first.
pub open spec fn after<'a>(work: Seq<Work<'a>>, stack: Option<Seq<Kind>>) -> Option<Seq<Kind>>
    decreases work.len(),
{
    if work.len() == 0 {
        stack
    } else {
        after(work.drop_last(), done(work.last(), stack))
    }
}

/// Whether the piece of work waits for a reply of the host.
pub open spec fn waiting<'a>(w: Work<'a>) -> bool {
    w is Reply || w is Verdict || w is Quotient
}

/// No piece of the work waits for a reply.
pub open spec fn quiet<'a>(work: Seq<Work<'a>>) -> bool {
    forall|i: int| 0 <= i < work.len() ==> !waiting(#[trigger] work[i])
}

/// A state that an evaluation can go on from: the values are what the
/// work takes, piece by piece, and only the work on top may wait for a
/// reply.
pub open spec fn sound<'a>(s: State<'a>) -> bool {
    &&& after(s.work, Some(kinds(s.values))) is Some
    &&& s.work.len() > 0 ==> quiet(s.work.drop_last())
}

/// Whether the reply answers what the work on top waits for.
pub open spec fn answers<'a>(s: State<'a>, reply: Reply) -> bool {
    s.work.len() > 0 ==> match s.work.last() {
        Work::Reply(kind) => fitting(reply, kind),
        Work::Verdict { .. } => reply is Bool,
        Work::Quotient { .. } => reply is Int,
        _ => true,
    }
}

/// Kinds that say as much or more.
pub open spec fn refines(a: Seq<Kind>, b: Seq<Kind>) -> bool {
    &&& a.len() == b.len()
    &&& forall|i: int| 0 <= i < a.len() ==> suits(#[trigger] a[i], b[i])
}

// ---------------------------------------------------------------------------
// Work in general
// ---------------------------------------------------------------------------
/// The work that was planned last is done first.
pub broadcast proof fn lemma_after_push<'a>(work: Seq<Work<'a>>, w: Work<'a>, stack: Option<Seq<Kind>>)
    ensures
        #[trigger] after(work.push(w), stack) == after(work, done(w, stack)),
{
    assert(work.push(w).drop_last() =~= work);
}

/// Work stays quiet while nothing that waits for a reply is planned.
pub broadcast proof fn lemma_quiet_push<'a>(work: Seq<Work<'a>>, w: Work<'a>)
    ensures
        #[trigger] quiet(work.push(w)) == (quiet(work) && !waiting(w)),
{
    if quiet(work) && !waiting(w) {
        assert forall|i: int| 0 <= i < work.push(w).len() implies !waiting(
            #[trigger] work.push(w)[i],
        ) by {
            if i < work.len() {
                assert(work.push(w)[i] == work[i]);
            }
        }
    }
    if quiet(work.push(w)) {
        assert(work.push(w)[work.len() as int] == w);
        assert forall|i: int| 0 <= i < work.len() implies !waiting(#[trigger] work[i]) by {
            assert(work.push(w)[i] == work[i]);
        }
    }
}

proof fn lemma_after_nothing<'a>(work: Seq<Work<'a>>)
    ensures
        after(work, None) is None,
    decreases work.len(),
{
    if work.len() > 0 {
        lemma_after_nothing(work.drop_last());
    }
}

/// Work that can be done with some values can be done with values of
/// which more is known.
pub proof fn lemma_refined<'a>(work: Seq<Work<'a>>, a: Seq<Kind>, b: Seq<Kind>)
    requires
        refines(a, b),
        after(work, Some(b)) is Some,
    ensures
        after(work, Some(a)) is Some,
    decreases work.len(),
{
    if work.len() > 0 {
        let w = work.last();
        if done(w, Some(b)) is None {
            lemma_after_nothing(work.drop_last());
        } else {
            let t = takes(w);
            assert(accepts(a, t)) by {
                assert forall|i: int| 0 <= i < t.len() implies suits(
                    a[a.len() - t.len() + i],
                    #[trigger] t[i],
                ) by {
                    assert(suits(b[b.len() - t.len() + i], t[i]));
                    assert(suits(a[a.len() - t.len() + i], b[a.len() - t.len() + i]));
                }
            }
            let a2 = a.subrange(0, a.len() - t.len()) + gives(w);
            let b2 = b.subrange(0, b.len() - t.len()) + gives(w);
            assert(refines(a2, b2)) by {
                assert forall|i: int| 0 <= i < a2.len() implies suits(#[trigger] a2[i], b2[i]) by {
                    if i < a.len() - t.len() {
                        assert(suits(a[i], b[i]));
                    }
                }
            }
            lemma_refined(work.drop_last(), a2, b2);
        }
    }
}

/// Work on top of other work is done first.
pub proof fn lemma_after_more<'a>(work: Seq<Work<'a>>, more: Seq<Work<'a>>, stack: Option<Seq<Kind>>)
    ensures
        after(work + more, stack) == after(work, after(more, stack)),
    decreases more.len(),
{
    if more.len() == 0 {
        assert(work + more =~= work);
    } else {
        assert((work + more).drop_last() =~= work + more.drop_last());
        assert((work + more).last() == more.last());
        lemma_after_more(work, more.drop_last(), done(more.last(), stack));
    }
}

proof fn lemma_quiet_more<'a>(work: Seq<Work<'a>>, more: Seq<Work<'a>>)
    requires
        quiet(work),
        quiet(more),
    ensures
        quiet(work + more),
{
    assert forall|i: int| 0 <= i < (work + more).len() implies !waiting(
        #[trigger] (work + more)[i],
    ) by {
        if i < work.len() {
            assert((work + more)[i] == work[i]);
        } else {
            assert((work + more)[i] == more[i - work.len()]);
        }
    }
}

/// The evaluations from `from` to `to` leave one value each.
proof fn lemma_evaluations_part<'a>(exprs: &'a Vec<Expr>, from: int, to: int, stack: Seq<Kind>)
    requires
        0 <= from <= to <= exprs@.len(),
    ensures
        after(evaluations(exprs).subrange(from, to), Some(stack)) == Some(stack + any(to - from)),
    decreases to - from,
{
    let all = evaluations(exprs);
    let part = all.subrange(from, to);
    if from == to {
        assert(stack + any(0) =~= stack);
    } else {
        assert(part.last() == all[to - 1]);
        assert(part.drop_last() =~= all.subrange(from, to - 1));
        assert(done(part.last(), Some(stack)) == Some(stack.push(Kind::Any))) by {
            assert(stack.subrange(0, stack.len() as int) + any(1) =~= stack.push(Kind::Any));
        }
        lemma_evaluations_part(exprs, from, to - 1, stack.push(Kind::Any));
        assert(stack.push(Kind::Any) + any(to - 1 - from) =~= stack + any(to - from));
    }
}

/// The executions of statements leave the values as they are.
proof fn lemma_executions_part<'a>(stmts: &'a Vec<Stmt>, from: int, to: int, stack: Seq<Kind>)
    requires
        0 <= from <= to <= stmts@.len(),
    ensures
        after(executions(stmts).subrange(from, to), Some(stack)) == Some(stack),
    decreases to - from,
{
    let all = executions(stmts);
    let part = all.subrange(from, to);
    if from < to {
        assert(part.last() == all[to - 1]);
        assert(part.drop_last() =~= all.subrange(from, to - 1));
        assert(done(part.last(), Some(stack)) == Some(stack)) by {
            assert(stack.subrange(0, stack.len() as int) + any(0) =~= stack);
        }
        lemma_executions_part(stmts, from, to - 1, stack);
    }
}


// ---------------------------------------------------------------------------
// Steps
// ---------------------------------------------------------------------------
/// The work beneath is quiet and can be done once values of the
/// expected kinds are at hand.
pub open spec fn ready<'a>(s: State<'a>, expected: Seq<Kind>) -> bool {
    &&& quiet(s.work)
    &&& after(s.work, Some(expected)) is Some
}

/// The outcome of a step that goes well: the evaluation is not lost, the
/// state is sound, and work waits for a reply only if the host is asked.
pub open spec fn lands<'a>(r: Stepped<'a>) -> bool {
    &&& !(r.action is Lost)
    &&& sound(r.state)
    &&& r.action is Continue || r.action is Print ==> quiet(r.state.work)
}

/// The kinds that are left beneath the values that are taken, and what
/// is given in their place.
pub open spec fn beneath(stack: Seq<Kind>, taken: int, given: Seq<Kind>) -> Seq<Kind> {
    stack.subrange(0, stack.len() - taken) + given
}

/// Work that can be done on given kinds of values can be done on kinds
/// that refine them.
pub broadcast proof fn lemma_refined_here<'a>(work: Seq<Work<'a>>, a: Seq<Kind>, b: Seq<Kind>)
    requires
        refines(a, b),
        #[trigger] after(work, Some(b)) is Some,
    ensures
        #[trigger] after(work, Some(a)) is Some,
{
    lemma_refined(work, a, b);
}

/// The evaluations of the elements, then the collection of their values.
proof fn lemma_collection<'a>(s: State<'a>, e: &'a Expr, elements: &'a Vec<Expr>)
    requires
        ready(s, kinds(s.values).push(Kind::Any)),
        proper(Work::Then(e, 1)),
        takes(Work::Then(e, 1)) == any(elements@.len() as int),
        gives(Work::Then(e, 1)) == any(1),
    ensures
        sound(State { work: s.work.push(Work::Then(e, 1)) + evaluations(elements), ..s }),
        quiet(s.work.push(Work::Then(e, 1)) + evaluations(elements)),
{
    broadcast use lemma_after_push, lemma_quiet_push;

    let k = kinds(s.values);
    let n = elements@.len() as int;
    let base = s.work.push(Work::Then(e, 1));
    let more = evaluations(elements);
    lemma_after_more(base, more, Some(k));
    lemma_evaluations_part(elements, 0, n, k);
    assert(more.subrange(0, n) =~= more);
    assert((k + any(n)).subrange(0, (k + any(n)).len() - any(n).len()) + any(1) =~= k.push(
        Kind::Any,
    ));
    assert(accepts(k + any(n), any(n)));
    assert(quiet(more));
    lemma_quiet_more(base, more);
    let all = base + more;
    assert forall|i: int| 0 <= i < all.drop_last().len() implies !waiting(
        #[trigger] all.drop_last()[i],
    ) by {
        assert(all.drop_last()[i] == all[i]);
    }
}

proof fn lemma_evaluate_lands<'a>(s: State<'a>, e: &'a Expr)
    requires
        ready(s, kinds(s.values).push(Kind::Any)),
    ensures
        lands(evaluate(s, e)),
{
    broadcast use lemma_after_push, lemma_quiet_push, lemma_refined_here;

    let r = evaluate(s, e);
    let k = kinds(s.values);
    match *e {
        Expr::Literal { value, .. } => {
            assert(sound(r.state));
        },
        Expr::DoubleLiteral { .. } => {
            assert(sound(r.state));
        },
        Expr::Variable { .. } => {
            assert(sound(r.state));
        },
        Expr::Assign { .. } => {
            assert(sound(r.state));
        },
        Expr::MultiAssign { .. } => {
            assert(sound(r.state));
        },
        Expr::Binary { .. } => {
            assert(sound(r.state));
        },
        Expr::Unary { .. } => {
            assert(sound(r.state));
        },
        Expr::Logical { .. } => {
            assert(sound(r.state));
        },
        Expr::Call { .. } => {
            assert(sound(r.state));
        },
        Expr::CallWithKwargs { .. } => {
            assert(sound(r.state));
        },
        Expr::MultiReturn { values, .. } => {
            lemma_collection(s, e, &values);
        },
        Expr::Grouping { .. } => {
            assert(sound(r.state));
        },
        Expr::List { elements, .. } => {
            lemma_collection(s, e, &elements);
        },
        Expr::Tuple { elements, .. } => {
            lemma_collection(s, e, &elements);
        },
        Expr::Dict { .. } => {
            assert(sound(r.state));
        },
        Expr::PropertyAccess { .. } => {
            assert(sound(r.state));
        },
    }
}


/// The work `w` was on top of the state `s` and can be done: the values
/// are what it takes, and what it leaves is what the work beneath takes.
pub open spec fn on_top<'a>(s: State<'a>, w: Work<'a>) -> bool {
    &&& quiet(s.work)
    &&& proper(w)
    &&& accepts(kinds(s.values), takes(w))
    &&& after(s.work, Some(beneath(kinds(s.values), takes(w).len() as int, gives(w)))) is Some
}

proof fn lemma_settle_lands<'a>(s: State<'a>, result: Result<ValueView, crate::error::ErrorView>)
    requires
        ready(s, kinds(s.values).push(Kind::Any)),
    ensures
        lands(settle(s, result)),
{
    broadcast use lemma_after_push, lemma_quiet_push, lemma_refined_here;

}

proof fn lemma_operate_lands<'a>(s: State<'a>, outcome: OperationView)
    requires
        ready(s, kinds(s.values).push(Kind::Any)),
    ensures
        lands(operate(s, outcome)),
{
    broadcast use lemma_after_push, lemma_quiet_push, lemma_refined_here;

    let k = kinds(s.values);
    match outcome {
        Operation::Equals { left, right, negate } => {
            let compared = with_value(with_value(s, left), right);
            let k2 = kinds(compared.values);
            assert(beneath(k2, 2, seq![Kind::Bool]) =~= k.push(Kind::Bool));
            assert(beneath(k.push(Kind::Bool), 1, seq![Kind::Bool]) =~= k.push(Kind::Bool));
            assert(refines(k.push(Kind::Bool), k.push(Kind::Any)));
            assert(accepts(k2, any(2)));
            assert(accepts(k.push(Kind::Bool), seq![Kind::Bool]));
        },
        Operation::Search { needle, items } => {
            if items.len() <= usize::MAX {
                let values = s.values.push(needle) + items.reverse();
                let k2 = kinds(values);
                assert(beneath(k2, items.len() as int + 1, seq![Kind::Bool]) =~= k.push(Kind::Bool));
                assert(refines(k.push(Kind::Bool), k.push(Kind::Any)));
                assert(accepts(k2, any(items.len() as int + 1)));
            }
        },
        _ => {},
    }
}

proof fn lemma_resume_lands<'a>(s: State<'a>, e: &'a Expr, stage: usize)
    requires
        on_top(s, Work::Then(e, stage)),
    ensures
        lands(resume(s, e, stage)),
{
    broadcast use lemma_after_push, lemma_quiet_push, lemma_refined_here;

    let k = kinds(s.values);
    match *e {
        Expr::Assign { name, .. } => {
            assert(beneath(k, 1, any(1)) =~= k.subrange(0, k.len() - 1).push(Kind::Any));
            assert(refines(k, beneath(k, 1, any(1))));
        },
        Expr::MultiAssign { .. } => {
            assert(refines(k, beneath(k, 1, any(1))));
        },
        Expr::Binary { operator, span, .. } => {
            let rest = without(s, 2);
            assert(kinds(rest.values).push(Kind::Any) =~= beneath(k, 2, any(1)));
            lemma_operate_lands(
                rest,
                crate::operations::binary(operator, from_end(s, 1), from_end(s, 0), span),
            );
        },
        Expr::Unary { operator, span, .. } => {
            let rest = without(s, 1);
            assert(kinds(rest.values).push(Kind::Any) =~= beneath(k, 1, any(1)));
            lemma_settle_lands(rest, crate::operations::unary(operator, from_end(s, 0), span));
        },
        Expr::Logical { operator, right, .. } => {
            let rest = without(s, 1);
            assert(kinds(rest.values).push(Kind::Any) =~= beneath(k, 1, any(1)));
            assert(refines(k, beneath(k, 1, any(1))));
        },
        Expr::CallWithKwargs { .. } => {
            lemma_keyword_call_lands(s, e);
        },
        Expr::MultiReturn { values, .. } => {
            lemma_collect_lands(s, values@.len() as int, true);
        },
        Expr::List { elements, .. } => {
            lemma_collect_lands(s, elements@.len() as int, false);
        },
        Expr::Tuple { elements, .. } => {
            lemma_collect_lands(s, elements@.len() as int, true);
        },
        Expr::Dict { .. } => {
            lemma_insert_entry_lands(s, e, stage);
        },
        Expr::PropertyAccess { property, span, .. } => {
            let rest = without(s, 1);
            assert(kinds(rest.values).push(Kind::Any) =~= beneath(k, 1, any(1)));
            lemma_settle_lands(
                rest,
                crate::operations::property(from_end(s, 0), property@, span),
            );
        },
        _ => {},
    }
}

proof fn lemma_collect_lands<'a>(s: State<'a>, n: int, tuple: bool)
    requires
        quiet(s.work),
        0 <= n <= s.values.len(),
        after(s.work, Some(beneath(kinds(s.values), n, any(1)))) is Some,
    ensures
        lands(collect(s, n, tuple)),
{
    broadcast use lemma_refined_here;

    let k = kinds(s.values);
    let r = collect(s, n, tuple);
    assert(refines(kinds(r.state.values), beneath(k, n, any(1))));
}

proof fn lemma_keyword_call_lands<'a>(s: State<'a>, e: &'a Expr)
    requires
        on_top(s, Work::Then(e, 1)) || exists|stage: usize| on_top(s, Work::Then(e, stage)),
        e is CallWithKwargs,
    ensures
        lands(keyword_call(s, e)),
{
    broadcast use lemma_after_push, lemma_quiet_push, lemma_refined_here;

    let k = kinds(s.values);
    let rest = without(s, 1);
    let k1 = kinds(rest.values);
    assert(k1.push(Kind::Any) =~= beneath(k, 1, any(1)));
    match *e {
        Expr::CallWithKwargs { callee, positional_args, keyword_args, span } => {
            match from_end(s, 0) {
                ValueView::String(name) => {
                    if name == crate::machine::divmod_marker() {
                        if positional_args@.len() == 2 {
                            let k3 = k1.push(Kind::Any).push(Kind::Any).push(Kind::Text);
                            assert(beneath(k1, 0, any(1)) =~= k1.push(Kind::Any));
                            assert(beneath(k1.push(Kind::Any), 0, any(1)) =~= k1.push(
                                Kind::Any,
                            ).push(Kind::Any));
                            assert(beneath(k1.push(Kind::Any).push(Kind::Any), 0, seq![Kind::Text])
                                =~= k3);
                            assert(beneath(k3, 3, any(1)) =~= k1.push(Kind::Any));
                            assert(accepts(k3, seq![Kind::Any, Kind::Any, Kind::Text]));
                        }
                    } else if keyword_args@.len() > 0 {
                    } else {
                        match crate::environment::lookup(s.scopes, name) {
                            Some(v) => {
                                let k2 = kinds(with_value(rest, v).values);
                                assert(beneath(k2, 1, any(1)) =~= k1.push(Kind::Any));
                                assert(accepts(k2, any(1)));
                            },
                            None => {},
                        }
                    }
                },
                _ => {},
            }
        },
        _ => {},
    }
}

proof fn lemma_insert_entry_lands<'a>(s: State<'a>, e: &'a Expr, index: usize)
    requires
        on_top(s, Work::Then(e, index)),
        e is Dict,
    ensures
        lands(insert_entry(s, e, index)),
{
    broadcast use lemma_after_push, lemma_quiet_push, lemma_refined_here;

    let k = kinds(s.values);
    let t = seq![Kind::Dict, Kind::Any, Kind::Any];
    assert(suits(k[k.len() - 3 + 0], t[0]));
    assert(from_end(s, 2) is Dict);
    let rest = without(s, 3);
    let k0 = kinds(rest.values);
    assert(k0.push(Kind::Dict) =~= beneath(k, 3, seq![Kind::Dict]));
    match *e {
        Expr::Dict { pairs, span } => {
            match (from_end(s, 2), from_end(s, 1)) {
                (ValueView::Dict(entries), ValueView::String(key)) => {
                    let next = with_value(
                        rest,
                        ValueView::Dict(crate::environment::put(entries, key, from_end(s, 0))),
                    );
                    let k1 = kinds(next.values);
                    assert(k1 =~= k0.push(Kind::Dict));
                    if index + 1 < pairs@.len() {
                        let k3 = k1.push(Kind::Any).push(Kind::Any);
                        assert(beneath(k1, 0, any(1)) =~= k1.push(Kind::Any));
                        assert(beneath(k1.push(Kind::Any), 0, any(1)) =~= k3);
                        assert(beneath(k3, 3, seq![Kind::Dict]) =~= k0.push(Kind::Dict));
                        assert(accepts(k3, t)) by {
                            assert forall|i: int| 0 <= i < t.len() implies suits(
                                k3[k3.len() - t.len() + i],
                                #[trigger] t[i],
                            ) by {}
                        }
                    }
                },
                _ => {},
            }
        },
        _ => {},
    }
}


proof fn lemma_call_lands<'a>(s: State<'a>, args: &'a Vec<Expr>, span: Span)
    requires
        on_top(s, Work::Call { args, span }),
    ensures
        lands(call(s, args, span)),
{
    broadcast use lemma_after_push, lemma_quiet_push, lemma_refined_here;

    let k = kinds(s.values);
    let rest = without(s, 1);
    let k1 = kinds(rest.values);
    assert(k1.push(Kind::Any) =~= beneath(k, 1, any(1)));
    assert(beneath(k1, 0, any(1)) =~= k1.push(Kind::Any));
    assert(beneath(k1.push(Kind::Any), 1, any(1)) =~= k1.push(Kind::Any));
    assert(accepts(k1.push(Kind::Any), any(1)));
    let k3 = k1.push(Kind::Any).push(Kind::Any).push(Kind::Text);
    assert(beneath(k1.push(Kind::Any), 0, any(1)) =~= k1.push(Kind::Any).push(Kind::Any));
    assert(beneath(k1.push(Kind::Any).push(Kind::Any), 0, seq![Kind::Text]) =~= k3);
    assert(beneath(k3, 3, any(1)) =~= k1.push(Kind::Any));
    assert(accepts(k3, seq![Kind::Any, Kind::Any, Kind::Text]));
    assert(refines(kinds(with_value(rest, ValueView::Nil).values), k1.push(Kind::Any)));
}

proof fn lemma_print_lands<'a>(s: State<'a>, args: &'a Vec<Expr>, next: usize)
    requires
        on_top(s, Work::Print { args, next }),
    ensures
        lands(print(s, args, next)),
{
    broadcast use lemma_after_push, lemma_quiet_push, lemma_refined_here;

    let k = kinds(s.values);
    let rest = without(s, 1);
    let k1 = kinds(rest.values);
    assert(k1.push(Kind::Any) =~= beneath(k, 1, any(1)));
    assert(beneath(k1, 0, any(1)) =~= k1.push(Kind::Any));
    assert(beneath(k1.push(Kind::Any), 1, any(1)) =~= k1.push(Kind::Any));
    assert(accepts(k1.push(Kind::Any), any(1)));
    assert(refines(kinds(with_value(rest, ValueView::Nil).values), k1.push(Kind::Any)));
}

proof fn lemma_case_lands<'a>(s: State<'a>, args: &'a Vec<Expr>, index: usize)
    requires
        on_top(s, Work::Case { args, index }),
    ensures
        lands(case(s, args, index)),
{
    broadcast use lemma_after_push, lemma_quiet_push, lemma_refined_here;

    let k = kinds(s.values);
    let rest = without(s, 1);
    let k1 = kinds(rest.values);
    assert(k1.push(Kind::Any) =~= beneath(k, 1, any(1)));
    assert(beneath(k1, 0, any(1)) =~= k1.push(Kind::Any));
    assert(beneath(k1.push(Kind::Any), 1, any(1)) =~= k1.push(Kind::Any));
    assert(accepts(k1.push(Kind::Any), any(1)));
    assert(refines(
        kinds(with_value(rest, ValueView::CaseResult(Box::new(ValueView::Nil))).values),
        k1.push(Kind::Any),
    ));
}

proof fn lemma_divmod_lands<'a>(s: State<'a>, span: Span)
    requires
        on_top(s, Work::Divmod { span }),
    ensures
        lands(apply_divmod(s, span)),
{
    let k = kinds(s.values);
    let t = seq![Kind::Any, Kind::Any, Kind::Text];
    assert(suits(k[k.len() - 3 + 2], t[2]));
    assert(from_end(s, 0) is String);
    let rest = without(s, 3);
    assert(kinds(rest.values).push(Kind::Any) =~= beneath(k, 3, any(1)));
    match from_end(s, 0) {
        ValueView::String(mode) => {
            lemma_operate_lands(
                rest,
                crate::operations::divmod(from_end(s, 2), from_end(s, 1), mode, span),
            );
        },
        _ => {},
    }
}

proof fn lemma_keyword_lands<'a>(s: State<'a>, e: &'a Expr, index: usize)
    requires
        on_top(s, Work::Keyword { call: e, index }),
    ensures
        lands(keyword(s, e, index)),
{
    broadcast use lemma_after_push, lemma_quiet_push, lemma_refined_here;

    let k = kinds(s.values);
    let t = seq![Kind::Any, Kind::Any, Kind::Text];
    assert(suits(k[k.len() - 3 + 2], t[2]));
    assert(beneath(k, 0, any(1)) =~= k.push(Kind::Any));
    let t4 = seq![Kind::Any, Kind::Any, Kind::Text, Kind::Any];
    assert(accepts(k.push(Kind::Any), t4)) by {
        assert forall|i: int| 0 <= i < t4.len() implies suits(
            k.push(Kind::Any)[k.push(Kind::Any).len() - t4.len() + i],
            #[trigger] t4[i],
        ) by {}
    }
    assert(beneath(k.push(Kind::Any), 4, any(1)) =~= beneath(k, 3, any(1)));
}

proof fn lemma_keyword_value_lands<'a>(s: State<'a>, e: &'a Expr, index: usize)
    requires
        on_top(s, Work::KeywordValue { call: e, index }),
    ensures
        lands(keyword_value(s, e, index)),
{
    broadcast use lemma_after_push, lemma_quiet_push, lemma_refined_here;

    let k = kinds(s.values);
    let rest = without(s, 2);
    let k2 = kinds(rest.values);
    match *e {
        Expr::CallWithKwargs { keyword_args, .. } => {
            assert(keyword_args@.len() == keyword_args.len());
            assert(index < usize::MAX);
        },
        _ => {},
    }
    match from_end(s, 0) {
        ValueView::String(mode) => {
            let next = with_value(rest, ValueView::String(mode));
            let k3 = kinds(next.values);
            assert(k3 =~= k2.push(Kind::Text));
            let t = seq![Kind::Any, Kind::Any, Kind::Text];
            assert(accepts(k3, t)) by {
                assert forall|i: int| 0 <= i < t.len() implies suits(
                    k3[k3.len() - t.len() + i],
                    #[trigger] t[i],
                ) by {}
            }
            assert(beneath(k3, 3, any(1)) =~= beneath(k, 4, any(1)));
        },
        _ => {},
    }
}

proof fn lemma_differ_lands<'a>(s: State<'a>, pairs: int)
    requires
        quiet(s.work),
        0 <= pairs,
        2 * pairs <= s.values.len(),
        after(s.work, Some(beneath(kinds(s.values), 2 * pairs, seq![Kind::Bool]))) is Some,
    ensures
        lands(differ(s, pairs)),
{
    let r = differ(s, pairs);
    assert(kinds(r.state.values) =~= beneath(kinds(s.values), 2 * pairs, seq![Kind::Bool]));
}

proof fn lemma_equal_lands<'a>(s: State<'a>, pairs: usize)
    requires
        on_top(s, Work::Equal { pairs }),
    ensures
        lands(equal(s, pairs)),
{
    broadcast use lemma_after_push, lemma_quiet_push, lemma_refined_here;

    let k = kinds(s.values);
    if pairs == 0 {
        assert(kinds(with_value(s, ValueView::Bool(true)).values) =~= beneath(
            k,
            0,
            seq![Kind::Bool],
        ));
    } else {
        let rest = without(s, 2);
        let k2 = kinds(rest.values);
        assert(beneath(k2, 2 * (pairs - 1), seq![Kind::Bool]) =~= beneath(
            k,
            2 * pairs,
            seq![Kind::Bool],
        ));
        assert(accepts(k2, any(2 * (pairs - 1))));
        match crate::operations::pairing(from_end(s, 1), from_end(s, 0)) {
            Pairing::Unequal => {
                lemma_differ_lands(rest, pairs - 1);
            },
            Pairing::Elements(l, r) => {
                if pairs - 1 + l.len() <= usize::MAX {
                    let values = rest.values + paired(l, r);
                    let k3 = kinds(values);
                    let total = pairs - 1 + l.len();
                    assert(beneath(k3, 2 * total, seq![Kind::Bool]) =~= beneath(
                        k,
                        2 * pairs,
                        seq![Kind::Bool],
                    ));
                    assert(accepts(k3, any(2 * total)));
                }
            },
            _ => {},
        }
    }
}

proof fn lemma_verdict_lands<'a>(s: State<'a>, pairs: usize, reply: Reply)
    requires
        on_top(s, Work::Verdict { pairs }),
        reply is Bool,
    ensures
        lands(verdict(s, pairs, reply)),
{
    broadcast use lemma_after_push, lemma_quiet_push, lemma_refined_here;

    lemma_differ_lands(s, pairs as int);
}

proof fn lemma_negate_lands<'a>(s: State<'a>)
    requires
        on_top(s, Work::Negate),
    ensures
        lands(negate(s)),
{
    let k = kinds(s.values);
    let t = seq![Kind::Bool];
    assert(suits(k[k.len() - 1 + 0], t[0]));
    let r = negate(s);
    assert(kinds(r.state.values) =~= beneath(k, 1, seq![Kind::Bool]));
}

proof fn lemma_member_lands<'a>(s: State<'a>, items: usize)
    requires
        on_top(s, Work::Member { items }),
    ensures
        lands(member(s, items)),
{
    broadcast use lemma_after_push, lemma_quiet_push, lemma_refined_here;

    let k = kinds(s.values);
    let expected = beneath(k, items + 1, seq![Kind::Bool]);
    if items == 0 {
        let r = member(s, items);
        assert(kinds(r.state.values) =~= expected);
    } else {
        let needle = from_end(s, items as int);
        let next = with_value(with_value(without(s, 1), needle), from_end(s, 0));
        let k2 = kinds(next.values);
        assert(accepts(k2, any(2)));
        let k3 = beneath(k2, 2, seq![Kind::Bool]);
        let taken = any(items as int).push(Kind::Bool);
        assert(accepts(k3, taken)) by {
            assert forall|i: int| 0 <= i < taken.len() implies suits(
                k3[k3.len() - taken.len() + i],
                #[trigger] taken[i],
            ) by {}
        }
        assert(beneath(k3, items + 1, seq![Kind::Bool]) =~= expected);
    }
}

proof fn lemma_found_lands<'a>(s: State<'a>, items: usize)
    requires
        on_top(s, Work::Found { items }),
    ensures
        lands(found(s, items)),
{
    broadcast use lemma_after_push, lemma_quiet_push, lemma_refined_here;

    let k = kinds(s.values);
    let taken = any(items + 1).push(Kind::Bool);
    assert(suits(k[k.len() - taken.len() + (items + 1)], taken[items + 1]));
    assert(from_end(s, 0) is Bool);
    let expected = beneath(k, items + 2, seq![Kind::Bool]);
    match from_end(s, 0) {
        ValueView::Bool(same) => {
            if same {
                let r = found(s, items);
                assert(kinds(r.state.values) =~= expected);
            } else {
                let rest = without(s, 1);
                let k1 = kinds(rest.values);
                assert(accepts(k1, any(items + 1)));
                assert(beneath(k1, items + 1, seq![Kind::Bool]) =~= expected);
            }
        },
        _ => {},
    }
}

proof fn lemma_answer_lands<'a>(s: State<'a>, kind: Answer, reply: Reply)
    requires
        on_top(s, Work::Reply(kind)),
        fitting(reply, kind),
    ensures
        lands(answer(s, kind, reply)),
{
    broadcast use lemma_refined_here;

    let k = kinds(s.values);
    let r = answer(s, kind, reply);
    assert(beneath(k, 0, any(1)) =~= k.push(Kind::Any));
    assert(refines(kinds(r.state.values), k.push(Kind::Any)));
}

proof fn lemma_quotient_lands<'a>(s: State<'a>, a: i64, b: i64, reply: Reply)
    requires
        on_top(s, Work::Quotient { a, b }),
        reply is Int,
    ensures
        lands(quotient(s, a, b, reply)),
{
    broadcast use lemma_refined_here;

    let k = kinds(s.values);
    let r = quotient(s, a, b, reply);
    assert(beneath(k, 0, any(1)) =~= k.push(Kind::Any));
    assert(refines(kinds(r.state.values), k.push(Kind::Any)));
}

proof fn lemma_execute_lands<'a>(s: State<'a>, st: &'a Stmt)
    requires
        on_top(s, Work::Exec(st)),
    ensures
        lands(execute(s, st)),
{
    broadcast use lemma_after_push, lemma_quiet_push, lemma_refined_here;

    let k = kinds(s.values);
    assert(beneath(k, 0, any(0)) =~= k);
    assert(beneath(k, 0, any(1)) =~= k.push(Kind::Any));
    assert(beneath(k.push(Kind::Any), 1, any(0)) =~= k);
    assert(accepts(k.push(Kind::Any), any(1)));
    match *st {
        Stmt::Block { statements, .. } => {
            let base = s.work.push(Work::CloseScope);
            let more = executions(&statements);
            lemma_after_more(base, more, Some(k));
            lemma_executions_part(&statements, 0, statements@.len() as int, k);
            assert(more.subrange(0, statements@.len() as int) =~= more);
            assert(quiet(more));
            lemma_quiet_more(base, more);
            let all = base + more;
            assert forall|i: int| 0 <= i < all.drop_last().len() implies !waiting(
                #[trigger] all.drop_last()[i],
            ) by {
                assert(all.drop_last()[i] == all[i]);
            }
        },
        _ => {},
    }
}

proof fn lemma_proceed_lands<'a>(s: State<'a>, st: &'a Stmt, stage: usize)
    requires
        on_top(s, Work::ThenStmt(st, stage)),
    ensures
        lands(proceed(s, st, stage)),
{
    broadcast use lemma_after_push, lemma_quiet_push, lemma_refined_here;

    let k = kinds(s.values);
    assert(beneath(k, 0, any(0)) =~= k);
    assert(beneath(k, 0, any(1)) =~= k.push(Kind::Any));
    assert(beneath(k.push(Kind::Any), 1, any(0)) =~= k);
    assert(accepts(k.push(Kind::Any), any(1)));
    if s.values.len() >= 1 {
        let rest = without(s, 1);
        let k1 = kinds(rest.values);
        assert(k1 =~= beneath(k, 1, any(0)));
        assert(beneath(k1, 0, any(0)) =~= k1);
        assert(beneath(k1, 0, any(1)) =~= k1.push(Kind::Any));
        assert(beneath(k1.push(Kind::Any), 1, any(0)) =~= k1);
        assert(accepts(k1.push(Kind::Any), any(1)));
    }
}

/// A step from a sound state, with a reply that answers the request
/// before it, is not lost and leads to a sound state.
pub proof fn lemma_step_is_sound<'a>(s: State<'a>, reply: Reply)
    requires
        sound(s),
        answers(s, reply),
    ensures
        lands(step(s, reply)),
{
    broadcast use lemma_after_push, lemma_quiet_push, lemma_refined_here;

    if s.work.len() > 0 {
        let rest = State { work: s.work.drop_last(), ..s };
        let top = s.work.last();
        let k = kinds(s.values);
        assert(s.work =~= rest.work.push(top));
        if done(top, Some(k)) is None {
            lemma_after_nothing(rest.work);
        }
        assert(on_top(rest, top));
        match top {
            Work::Eval(e) => {
                assert(beneath(k, 0, any(1)) =~= k.push(Kind::Any));
                lemma_evaluate_lands(rest, e);
            },
            Work::Then(e, stage) => lemma_resume_lands(rest, e, stage),
            Work::Exec(st) => lemma_execute_lands(rest, st),
            Work::ThenStmt(st, stage) => lemma_proceed_lands(rest, st, stage),
            Work::Discard => {
                assert(kinds(without(rest, 1).values) =~= beneath(k, 1, any(0)));
            },
            Work::CloseScope => {
                assert(k =~= beneath(k, 0, any(0)));
            },
            Work::Call { args, span } => lemma_call_lands(rest, args, span),
            Work::Print { args, next } => lemma_print_lands(rest, args, next),
            Work::Len { span } => {
                assert(kinds(without(rest, 1).values).push(Kind::Any) =~= beneath(k, 1, any(1)));
                lemma_settle_lands(
                    without(rest, 1),
                    crate::operations::length(from_end(rest, 0), span),
                );
            },
            Work::TypeOf => {
                let r = step(s, reply);
                assert(refines(kinds(r.state.values), beneath(k, 1, any(1))));
            },
            Work::Case { args, index } => lemma_case_lands(rest, args, index),
            Work::Wrap => {
                let r = step(s, reply);
                assert(refines(kinds(r.state.values), beneath(k, 1, any(1))));
            },
            Work::Mode => {
                let r = step(s, reply);
                assert(kinds(r.state.values) =~= beneath(k, 0, seq![Kind::Text]));
            },
            Work::Divmod { span } => lemma_divmod_lands(rest, span),
            Work::Keyword { call, index } => lemma_keyword_lands(rest, call, index),
            Work::KeywordValue { call, index } => lemma_keyword_value_lands(rest, call, index),
            Work::Equal { pairs } => lemma_equal_lands(rest, pairs),
            Work::Verdict { pairs } => lemma_verdict_lands(rest, pairs, reply),
            Work::Negate => lemma_negate_lands(rest),
            Work::Member { items } => lemma_member_lands(rest, items),
            Work::Found { items } => lemma_found_lands(rest, items),
            Work::Reply(kind) => lemma_answer_lands(rest, kind, reply),
            Work::Quotient { a, b } => lemma_quotient_lands(rest, a, b, reply),
        }
    }
}

/// The evaluation of a program starts in a sound state.
pub proof fn lemma_program_starts_sound<'a>(
    scopes: crate::environment::Scopes,
    statements: &'a Vec<Stmt>,
)
    ensures
        sound(program_start(scopes, statements)),
        quiet(program_start(scopes, statements).work),
{
    let s = program_start(scopes, statements);
    let k = kinds(s.values);
    lemma_executions_part(statements, 0, statements@.len() as int, k);
    assert(s.work.subrange(0, statements@.len() as int) =~= s.work);
    assert(quiet(s.work));
    if s.work.len() > 0 {
        assert forall|i: int| 0 <= i < s.work.drop_last().len() implies !waiting(
            #[trigger] s.work.drop_last()[i],
        ) by {
            assert(s.work.drop_last()[i] == s.work[i]);
        }
    }
}

/// The evaluation of an expression starts in a sound state.
pub proof fn lemma_expression_starts_sound<'a>(scopes: crate::environment::Scopes, e: &'a Expr)
    ensures
        sound(expression_start(scopes, e)),
        quiet(expression_start(scopes, e).work),
{
    broadcast use lemma_after_push, lemma_quiet_push;

    let s = expression_start(scopes, e);
    let none: Seq<Work<'a>> = Seq::empty();
    assert(s.work =~= none.push(Work::Eval(e)));
    assert(accepts(kinds(s.values), any(0)));
    assert(s.work.drop_last() =~= none);
}

/// An evaluation never gets lost: from a sound state, with a reply that
/// answers the request before it, any number of steps lead to a sound
/// state, and none finds a value or a reply missing.
pub proof fn lemma_never_lost<'a>(s: State<'a>, reply: Reply, n: nat)
    requires
        sound(s),
        answers(s, reply),
    ensures
        !(steps(s, reply, n).action is Lost),
        sound(steps(s, reply, n).state),
    decreases n,
{
    if n > 0 {
        lemma_step_is_sound(s, reply);
        let first = step(s, reply);
        if first.action is Continue {
            assert(quiet(first.state.work));
            if first.state.work.len() > 0 {
                assert(!waiting(first.state.work.last()));
            }
            lemma_never_lost(first.state, Reply::Nothing, (n - 1) as nat);
        }
    }
}

} // verus!

