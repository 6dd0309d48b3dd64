//! What holds of every source text, of every chain of scopes and of
//! every evaluation.
use crate::environment::{
    assigned, bound, lemma_position_bounds, lookup, owner, position, put, Bindings, Scopes,
};
use crate::error::ErrorView;
use crate::grammar;
use crate::grammar::Level;
use crate::lexer::{
    byte_len, byte_offset, eof_token, in_run, is_digit, lemma_byte_offset_monotonic,
    lemma_run_end_bounds,
    lemma_step_advances, lex_number, lex_step, lex_string, lex_word, operator_kinds, run_end, scan,
    scan_from, single_char_kind, span_between, Lexed, Run, TokenType,
    TokenView,
};
use crate::ast::{AssignTarget, Expr, LogicalOp, Stmt};
use crate::error::Span;
use crate::host::Reply;
use crate::machine::{
    bind, call, closed, closes, equal, evaluate, evaluations, execute, executions,
    from_end, insert_entry, keyword, keyword_call, keyword_value, operate, proceed,
    program_start, resume, settle, step, steps, stopped, unpacked, unwound, without,
    State, Work,
};
use crate::operations::{binary, unary, Operation, OperationView};
use crate::value::ValueView;
use vstd::prelude::*;
use vstd::string::*;

verus! {

/// The text `s[from..to]` is where `token` stands, and, scanned alone, it
/// gives one token of the kind and with the text of `token`, which spans
/// all of it, and the end token.
pub open spec fn scans_alone(s: Seq<char>, token: TokenView, from: int, to: int) -> bool {
    &&& 0 <= from < to <= s.len()
    &&& token.span == span_between(s, from, to)
    &&& scan(s.subrange(from, to)) matches Ok(alone) && alone.len() == 2
        && alone[0].token_type == token.token_type && alone[0].lexeme == token.lexeme
        && alone[0].span == (Span { start: 0, end: byte_len(s.subrange(from, to)) as usize })
        && alone[1].token_type == TokenType::Eof
}

/// Round trip: the text of every token but the end token, taken from the
/// source at the token's span and scanned alone, gives a single token of
/// the same kind and text, whose span is the whole of that text.
pub proof fn lemma_scan_round_trip(s: Seq<char>, k: int)
    requires
        scan(s) is Ok,
        0 <= k < scan(s)->Ok_0.len() - 1,
    ensures
        exists|from: int, to: int| scans_alone(s, scan(s)->Ok_0[k], from, to),
{
    let q = lemma_token_origin(s, 0, Seq::empty(), k);
    lemma_step_alone(s, q);
    let to = lex_step(s, q).end;
    assert(scans_alone(s, scan(s)->Ok_0[k], q, to));
}

/// A scan ends with the end token, and no token before the last is an
/// end token.
pub proof fn lemma_scan_ends_with_eof(s: Seq<char>)
    requires
        scan(s) is Ok,
    ensures
        scan(s)->Ok_0.len() > 0,
        scan(s)->Ok_0.last() == eof_token(s),
        forall|k: int|
            0 <= k < scan(s)->Ok_0.len() - 1 ==> (#[trigger] scan(s)->Ok_0[k]).token_type
                != TokenType::Eof,
{
    lemma_scan_keeps_found(s, 0, Seq::empty());
    let tokens = scan(s)->Ok_0;
    assert forall|k: int| 0 <= k < tokens.len() - 1 implies (#[trigger] tokens[k]).token_type
        != TokenType::Eof by {
        let q = lemma_token_origin(s, 0, Seq::empty(), k);
        lemma_step_gives_no_end(s, q);
    }
}

/// No step gives an end token.
proof fn lemma_step_gives_no_end(s: Seq<char>, q: int)
    requires
        0 <= q < s.len(),
    ensures
        lex_step(s, q).out matches Lexed::Emit(t) ==> t.token_type != TokenType::Eof,
{
}

/// What was found before stays, and the scan adds the end token last.
proof fn lemma_scan_keeps_found(s: Seq<char>, p: int, found: Seq<TokenView>)
    requires
        0 <= p <= s.len(),
        scan_from(s, p, found) is Ok,
    ensures
        scan_from(s, p, found)->Ok_0.len() > found.len(),
        scan_from(s, p, found)->Ok_0.subrange(0, found.len() as int) == found,
        scan_from(s, p, found)->Ok_0.last() == eof_token(s),
    decreases s.len() - p,
{
    let result = scan_from(s, p, found)->Ok_0;
    if p >= s.len() {
        assert(result.subrange(0, found.len() as int) =~= found);
    } else {
        lemma_step_advances(s, p);
        let step = lex_step(s, p);
        match step.out {
            Lexed::Fail(_) => {},
            Lexed::Skip => {
                lemma_scan_keeps_found(s, step.end, found);
            },
            Lexed::Emit(t) => {
                lemma_scan_keeps_found(s, step.end, found.push(t));
                assert(result.subrange(0, found.len() as int) =~= result.subrange(
                    0,
                    found.len() as int + 1,
                ).subrange(0, found.len() as int));
                assert(found.push(t).subrange(0, found.len() as int) =~= found);
            },
        }
    }
}

/// Every token that a scan adds is what a step at some index gives.
proof fn lemma_token_origin(s: Seq<char>, p: int, found: Seq<TokenView>, k: int) -> (q: int)
    requires
        0 <= p <= s.len(),
        scan_from(s, p, found) is Ok,
        found.len() <= k < scan_from(s, p, found)->Ok_0.len() - 1,
    ensures
        p <= q < s.len(),
        lex_step(s, q).out == Lexed::Emit(scan_from(s, p, found)->Ok_0[k]),
    decreases s.len() - p,
{
    let result = scan_from(s, p, found)->Ok_0;
    if p >= s.len() {
        arbitrary()
    } else {
        lemma_step_advances(s, p);
        let step = lex_step(s, p);
        match step.out {
            Lexed::Fail(_) => arbitrary(),
            Lexed::Skip => lemma_token_origin(s, step.end, found, k),
            Lexed::Emit(t) => {
                if k == found.len() {
                    lemma_scan_keeps_found(s, step.end, found.push(t));
                    assert(result.subrange(0, found.len() as int + 1)[k] == found.push(t)[k]);
                    p
                } else {
                    lemma_token_origin(s, step.end, found.push(t), k)
                }
            },
        }
    }
}

/// A run that is known to end at `j` ends there.
proof fn lemma_run_ends_at(s: Seq<char>, i: int, j: int, run: Run)
    requires
        0 <= i <= j <= s.len(),
        forall|k: int| i <= k < j ==> in_run(run, #[trigger] s[k]),
        j == s.len() || !in_run(run, s[j]),
    ensures
        run_end(s, i, run) == j,
    decreases j - i,
{
    if i < j {
        lemma_run_ends_at(s, i + 1, j, run);
    }
}

/// A token scanned alone: one step takes the whole text and gives the
/// token's kind and text.
proof fn lemma_step_alone(s: Seq<char>, q: int)
    requires
        0 <= q < s.len(),
        lex_step(s, q).out is Emit,
    ensures
        q < lex_step(s, q).end <= s.len(),
        lex_step(s, q).out->Emit_0.span == span_between(s, q, lex_step(s, q).end),
        scan(s.subrange(q, lex_step(s, q).end)) matches Ok(alone) && alone.len() == 2
            && alone[0].token_type == lex_step(s, q).out->Emit_0.token_type && alone[0].lexeme
            == lex_step(s, q).out->Emit_0.lexeme && alone[0].span == (Span {
            start: 0,
            end: byte_len(s.subrange(q, lex_step(s, q).end)) as usize,
        }) && alone[1].token_type == TokenType::Eof,
{
    lemma_step_advances(s, q);
    let end = lex_step(s, q).end;
    let token = lex_step(s, q).out->Emit_0;
    let sub = s.subrange(q, end);
    let c = s[q];
    assert(sub[0] == c);
    assert(sub.len() == end - q);
    // The step on the text alone.
    if single_char_kind(c) is Some {
        assert(sub.subrange(0, 1) =~= s.subrange(q, q + 1));
    } else if operator_kinds(c) is Some {
        if q + 1 < s.len() && s[q + 1] == '=' {
            assert(sub[1] == '=');
            assert(sub.subrange(0, 2) =~= s.subrange(q, q + 2));
        } else {
            assert(sub.subrange(0, 1) =~= s.subrange(q, q + 1));
        }
    } else if c == '/' {
        assert(sub.subrange(0, 1) =~= s.subrange(q, q + 1));
    } else if crate::lexer::is_whitespace(c) {
    } else if c == '"' {
        let close = run_end(s, q + 1, Run::Quoted);
        lemma_run_end_bounds(s, q + 1, Run::Quoted);
        assert(end == close + 1);
        assert forall|k: int| 1 <= k < close - q implies in_run(Run::Quoted, #[trigger] sub[k]) by {
            assert(sub[k] == s[q + k]);
        }
        assert(sub[close - q] == s[close]);
        lemma_run_ends_at(sub, 1, close - q, Run::Quoted);
        assert(sub.subrange(1, close - q) =~= s.subrange(q + 1, close));
        assert(lex_step(sub, 0) == lex_string(sub, 0));
    } else if is_digit(c) {
        let whole = run_end(s, q + 1, Run::Digits);
        lemma_run_end_bounds(s, q + 1, Run::Digits);
        assert(lex_step(s, q) == lex_number(s, q));
        if whole + 1 < s.len() && s[whole] == '.' && is_digit(s[whole + 1]) {
            lemma_run_end_bounds(s, whole + 1, Run::Digits);
            assert(end == run_end(s, whole + 1, Run::Digits));
            assert forall|k: int| 1 <= k < whole - q implies in_run(
                Run::Digits,
                #[trigger] sub[k],
            ) by {
                assert(sub[k] == s[q + k]);
            }
            assert(sub[whole - q] == s[whole]);
            assert(sub[whole - q + 1] == s[whole + 1]);
            lemma_run_ends_at(sub, 1, whole - q, Run::Digits);
            assert forall|k: int| whole - q + 1 <= k < end - q implies in_run(
                Run::Digits,
                #[trigger] sub[k],
            ) by {
                assert(sub[k] == s[q + k]);
            }
            lemma_run_ends_at(sub, whole - q + 1, end - q, Run::Digits);
            assert(sub.subrange(0, end - q) =~= s.subrange(q, end));
        } else {
            assert(end == whole);
            assert forall|k: int| 1 <= k < whole - q implies in_run(
                Run::Digits,
                #[trigger] sub[k],
            ) by {
                assert(sub[k] == s[q + k]);
            }
            lemma_run_ends_at(sub, 1, whole - q, Run::Digits);
            assert(sub.subrange(0, whole - q) =~= s.subrange(q, whole));
        }
        assert(lex_step(sub, 0) == lex_number(sub, 0));
    } else {
        let last = run_end(s, q + 1, Run::Word);
        lemma_run_end_bounds(s, q + 1, Run::Word);
        assert(end == last);
        assert forall|k: int| 1 <= k < last - q implies in_run(Run::Word, #[trigger] sub[k]) by {
            assert(sub[k] == s[q + k]);
        }
        lemma_run_ends_at(sub, 1, last - q, Run::Word);
        assert(sub.subrange(0, last - q) =~= s.subrange(q, last));
        assert(lex_step(sub, 0) == lex_word(sub, 0));
    }
    let alone_step = lex_step(sub, 0);
    assert(alone_step.end == sub.len());
    assert(alone_step.out is Emit);
    let first = alone_step.out->Emit_0;
    assert(first.token_type == token.token_type);
    assert(first.lexeme == token.lexeme);
    assert(first.span == span_between(sub, 0, sub.len() as int));
    // The scan of the text alone: the step, then the end.
    let found: Seq<TokenView> = Seq::empty();
    assert(scan_from(sub, sub.len() as int, found.push(first)) == Ok::<
        Seq<TokenView>,
        ErrorView,
    >(found.push(first).push(eof_token(sub))));
    assert(scan(sub) == scan_from(sub, sub.len() as int, found.push(first)));
}

// ---------------------------------------------------------------------------
// Order
// ---------------------------------------------------------------------------
/// The tokens stand in the order of the source: each span starts no
/// later than it ends, and no later than where the token before it ends.
pub open spec fn in_order(tokens: Seq<TokenView>) -> bool {
    &&& forall|i: int|
        0 <= i < tokens.len() ==> (#[trigger] tokens[i]).span.start <= tokens[i].span.end
    &&& forall|i: int, j: int|
        0 <= i < j < tokens.len() ==> (#[trigger] tokens[i]).span.end <= (
        #[trigger] tokens[j]).span.start
}

/// The tokens found up to the character with index `p` end before it.
spec fn found_before(s: Seq<char>, found: Seq<TokenView>, p: int) -> bool {
    &&& in_order(found)
    &&& forall|i: int| 0 <= i < found.len() ==> (#[trigger] found[i]).span.end <= byte_offset(s, p)
}

proof fn lemma_scan_in_order(s: Seq<char>, p: int, found: Seq<TokenView>)
    requires
        0 <= p <= s.len(),
        byte_len(s) + 1 < usize::MAX,
        found_before(s, found, p),
        scan_from(s, p, found) is Ok,
    ensures
        in_order(scan_from(s, p, found)->Ok_0),
    decreases s.len() - p,
{
    lemma_byte_offset_monotonic(s, p, s.len() as int);
    if p >= s.len() {
        let all = found.push(eof_token(s));
        assert(in_order(all)) by {
            assert forall|i: int, j: int| 0 <= i < j < all.len() implies (#[trigger] all[i]).span.end
                <= (#[trigger] all[j]).span.start by {
                if j < found.len() {
                    assert(found[i].span.end <= found[j].span.start);
                } else {
                    assert(found[i].span.end <= byte_offset(s, p));
                }
            }
        }
    } else {
        lemma_step_advances(s, p);
        let step = lex_step(s, p);
        lemma_byte_offset_monotonic(s, p, step.end);
        lemma_byte_offset_monotonic(s, step.end, s.len() as int);
        match step.out {
            Lexed::Fail(_) => {},
            Lexed::Skip => {
                lemma_scan_in_order(s, step.end, found);
            },
            Lexed::Emit(t) => {
                lemma_step_alone(s, p);
                assert(t.span == span_between(s, p, step.end));
                let more = found.push(t);
                assert(found_before(s, more, step.end)) by {
                    assert forall|i: int, j: int| 0 <= i < j < more.len() implies (
                    #[trigger] more[i]).span.end <= (#[trigger] more[j]).span.start by {
                        if j < found.len() {
                            assert(found[i].span.end <= found[j].span.start);
                        } else {
                            assert(found[i].span.end <= byte_offset(s, p));
                        }
                    }
                    assert forall|i: int| 0 <= i < more.len() implies (#[trigger] more[i]).span.end
                        <= byte_offset(s, step.end) by {
                        if i < found.len() {
                            assert(found[i].span.end <= byte_offset(s, p));
                        }
                    }
                }
                lemma_scan_in_order(s, step.end, more);
            },
        }
    }
}

/// The tokens of a source stand in the order of the source.
pub proof fn lemma_tokens_in_order(s: Seq<char>)
    requires
        byte_len(s) + 1 < usize::MAX,
        scan(s) is Ok,
    ensures
        in_order(scan(s)->Ok_0),
{
    lemma_scan_in_order(s, 0, Seq::empty());
}

/// A scan finds at most one token for each character, and the end
/// token.
proof fn lemma_scan_count(s: Seq<char>, p: int, found: Seq<TokenView>)
    requires
        0 <= p <= s.len(),
        scan_from(s, p, found) is Ok,
    ensures
        scan_from(s, p, found)->Ok_0.len() <= found.len() + (s.len() - p) + 1,
    decreases s.len() - p,
{
    if p < s.len() {
        lemma_step_advances(s, p);
        let step = lex_step(s, p);
        match step.out {
            Lexed::Fail(_) => {},
            Lexed::Skip => {
                lemma_scan_count(s, step.end, found);
            },
            Lexed::Emit(t) => {
                lemma_scan_count(s, step.end, found.push(t));
            },
        }
    }
}

/// Every lexical error is what a step at some index gives.
proof fn lemma_error_origin(s: Seq<char>, p: int, found: Seq<TokenView>) -> (q: int)
    requires
        0 <= p <= s.len(),
        scan_from(s, p, found) is Err,
    ensures
        p <= q < s.len(),
        lex_step(s, q).out == Lexed::Fail(scan_from(s, p, found)->Err_0),
    decreases s.len() - p,
{
    if p >= s.len() {
        arbitrary()
    } else {
        lemma_step_advances(s, p);
        let step = lex_step(s, p);
        match step.out {
            Lexed::Fail(_) => p,
            Lexed::Skip => lemma_error_origin(s, step.end, found),
            Lexed::Emit(t) => lemma_error_origin(s, step.end, found.push(t)),
        }
    }
}

/// The tokens of a source are what a parser may rely on, they stand in
/// the order of the source, and there are no more of them than the
/// machine counts; the span of a lexical error is in order.
pub proof fn lemma_scan_is_in_order(s: Seq<char>)
    requires
        byte_len(s) + 1 < usize::MAX,
    ensures
        scan(s) matches Ok(tokens) ==> in_order(tokens) && crate::lexer::well_formed_tokens(
            tokens,
        ) && tokens.len() <= usize::MAX,
        scan(s) matches Err(e) ==> e.span.start <= e.span.end,
{
    lemma_byte_offset_monotonic(s, 0, s.len() as int);
    match scan(s) {
        Ok(tokens) => {
            lemma_tokens_in_order(s);
            lemma_scan_ends_with_eof(s);
            lemma_scan_count(s, 0, Seq::empty());
            assert forall|i: int| 0 <= i < tokens.len() implies (#[trigger] tokens[i]).span.end
                < usize::MAX by {
                if i < tokens.len() - 1 {
                    assert(tokens[i].span.end <= tokens[tokens.len() - 1].span.start);
                }
            }
        },
        Err(e) => {
            let q = lemma_error_origin(s, 0, Seq::empty());
            lemma_step_advances(s, q);
            lemma_byte_offset_monotonic(s, q, q + 1);
            lemma_byte_offset_monotonic(s, q + 1, s.len() as int);
            lemma_run_end_bounds(s, q + 1, Run::Quoted);
            lemma_run_end_bounds(s, q + 1, Run::Digits);
            lemma_byte_offset_monotonic(s, q, run_end(s, q + 1, Run::Quoted));
            lemma_byte_offset_monotonic(s, run_end(s, q + 1, Run::Quoted), s.len() as int);
            lemma_byte_offset_monotonic(s, q, run_end(s, q + 1, Run::Digits));
            lemma_byte_offset_monotonic(s, run_end(s, q + 1, Run::Digits), s.len() as int);
        },
    }
}

// ---------------------------------------------------------------------------
// Scopes
// ---------------------------------------------------------------------------
/// A name that was just bound is bound to its value.
pub proof fn lemma_bound_after_put(bindings: Bindings, name: Seq<char>, value: ValueView)
    ensures
        bound(put(bindings, name, value), name) == Some(value),
{
    lemma_position_bounds(bindings, name, 0);
    let after = put(bindings, name, value);
    lemma_position_bounds(after, name, 0);
    let at: int = match position(bindings, name, 0) {
        Some(i) => i,
        None => bindings.len() as int,
    };
    assert(after[at] == (name, value));
    let found = position(after, name, 0);
    assert(found is Some);
    lemma_position_is_first(after, name, 0, at);
    if found->0 < at {
        assert(bindings[found->0].0 == after[found->0].0);
        if position(bindings, name, 0) is Some {
            lemma_position_is_first(bindings, name, 0, found->0);
        }
    }
}

/// The position of a name is the first index at which it is bound.
proof fn lemma_position_is_first(bindings: Bindings, name: Seq<char>, from: int, at: int)
    requires
        0 <= from <= at < bindings.len(),
        bindings[at].0 == name,
    ensures
        position(bindings, name, from) matches Some(i) && from <= i <= at,
    decreases at - from,
{
    if bindings[from].0 != name {
        lemma_position_is_first(bindings, name, from + 1, at);
    }
}

/// Binding a name leaves what the other names are bound to.
pub proof fn lemma_bound_elsewhere(
    bindings: Bindings,
    name: Seq<char>,
    value: ValueView,
    other: Seq<char>,
)
    requires
        other != name,
    ensures
        bound(put(bindings, name, value), other) == bound(bindings, other),
{
    let after = put(bindings, name, value);
    lemma_position_bounds(bindings, name, 0);
    lemma_same_position(bindings, after, other, 0);
}

/// Where the names agree, positions agree.
proof fn lemma_same_position(a: Bindings, b: Bindings, other: Seq<char>, from: int)
    requires
        0 <= from,
        a.len() <= b.len(),
        forall|i: int| 0 <= i < a.len() ==> ((#[trigger] a[i]).0 == other <==> b[i].0 == other),
        forall|i: int|
            0 <= i < a.len() ==> (#[trigger] a[i]).0 == other ==> a[i].1 == b[i].1,
        forall|i: int| a.len() <= i < b.len() ==> (#[trigger] b[i]).0 != other,
    ensures
        position(a, other, from) == position(b, other, from),
        position(a, other, from) matches Some(i) ==> a[i].1 == b[i].1,
    decreases b.len() - from,
{
    if from < a.len() {
        assert(a[from].0 == other <==> b[from].0 == other);
        if a[from].0 != other {
            lemma_same_position(a, b, other, from + 1);
        }
    } else if from < b.len() {
        assert(b[from].0 != other);
        lemma_same_position(a, b, other, from + 1);
    }
}

/// The owner of a name is the innermost scope that binds it.
pub proof fn lemma_owner(scopes: Scopes, name: Seq<char>, depth: int)
    requires
        0 <= depth <= scopes.len(),
    ensures
        match owner(scopes, name, depth) {
            Some(d) => 0 <= d < depth && position(scopes[d], name, 0) is Some && forall|j: int|
                d < j < depth ==> position(#[trigger] scopes[j], name, 0) is None,
            None => forall|j: int|
                0 <= j < depth ==> position(#[trigger] scopes[j], name, 0) is None,
        },
    decreases depth,
{
    if depth > 0 && position(scopes[depth - 1], name, 0) is None {
        lemma_owner(scopes, name, depth - 1);
    }
}

/// Looking a name up finds it in its owner.
proof fn lemma_lookup_in_owner(scopes: Scopes, name: Seq<char>, depth: int)
    requires
        0 <= depth <= scopes.len(),
    ensures
        lookup(scopes.subrange(0, depth), name) == match owner(scopes, name, depth) {
            Some(d) => bound(scopes[d], name),
            None => None,
        },
    decreases depth,
{
    if depth > 0 {
        let outer = scopes.subrange(0, depth);
        assert(outer.last() == scopes[depth - 1]);
        assert(outer.drop_last() =~= scopes.subrange(0, depth - 1));
        if position(scopes[depth - 1], name, 0) is None {
            lemma_lookup_in_owner(scopes, name, depth - 1);
        }
    }
}

/// An assignment keeps the number of scopes, but for making the first.
pub proof fn lemma_assignment_keeps_depth(scopes: Scopes, name: Seq<char>, value: ValueView)
    ensures
        assigned(scopes, name, value).len() == if scopes.len() == 0 {
            1
        } else {
            scopes.len()
        },
{
    lemma_owner(scopes, name, scopes.len() as int);
}

/// Reading a variable after an assignment to it gives the value
/// assigned.
pub proof fn lemma_lookup_after_assignment(scopes: Scopes, name: Seq<char>, value: ValueView)
    ensures
        lookup(assigned(scopes, name, value), name) == Some(value),
{
    let after = assigned(scopes, name, value);
    let n = after.len() as int;
    if scopes.len() == 0 {
        lemma_bound_after_put(Seq::empty(), name, value);
        assert(after.last() == put(Seq::empty(), name, value));
    } else {
        lemma_owner(scopes, name, scopes.len() as int);
        let target: int = match owner(scopes, name, scopes.len() as int) {
            Some(d) => d,
            None => scopes.len() - 1,
        };
        lemma_bound_after_put(scopes[target], name, value);
        assert(after[target] == put(scopes[target], name, value));
        assert(position(after[target], name, 0) is Some);
        assert forall|j: int| target < j < n implies position(#[trigger] after[j], name, 0)
            is None by {
            assert(after[j] == scopes[j]);
        }
        lemma_owner(after, name, n);
        lemma_lookup_in_owner(after, name, n);
        assert(after.subrange(0, n) =~= after);
    }
}

/// An assignment leaves what the other variables hold.
pub proof fn lemma_lookup_of_another(
    scopes: Scopes,
    name: Seq<char>,
    value: ValueView,
    other: Seq<char>,
)
    requires
        other != name,
        scopes.len() > 0,
    ensures
        lookup(assigned(scopes, name, value), other) == lookup(scopes, other),
{
    let after = assigned(scopes, name, value);
    lemma_owner(scopes, name, scopes.len() as int);
    let target: int = match owner(scopes, name, scopes.len() as int) {
        Some(d) => d,
        None => scopes.len() - 1,
    };
    lemma_bound_elsewhere(scopes[target], name, value, other);
    assert forall|i: int| 0 <= i < scopes.len() implies bound(#[trigger] after[i], other) == bound(
        scopes[i],
        other,
    ) by {
        if i != target {
            assert(after[i] == scopes[i]);
        }
    }
    lemma_lookup_alike(after, scopes, other);
}

/// Scopes that bind a name alike give the same when it is looked up.
proof fn lemma_lookup_alike(a: Scopes, b: Scopes, name: Seq<char>)
    requires
        a.len() == b.len(),
        forall|i: int| 0 <= i < a.len() ==> bound(#[trigger] a[i], name) == bound(b[i], name),
    ensures
        lookup(a, name) == lookup(b, name),
    decreases a.len(),
{
    if a.len() > 0 {
        assert(bound(a[a.len() - 1], name) == bound(b[a.len() - 1], name));
        if bound(a.last(), name) is None {
            assert forall|i: int| 0 <= i < a.drop_last().len() implies bound(
                #[trigger] a.drop_last()[i],
                name,
            ) == bound(b.drop_last()[i], name) by {
                assert(bound(a[i], name) == bound(b[i], name));
            }
            lemma_lookup_alike(a.drop_last(), b.drop_last(), name);
        }
    }
}

// ---------------------------------------------------------------------------
// Blocks
// ---------------------------------------------------------------------------
/// The scopes and the work are in balance: besides the `base` scopes
/// that the evaluation began with, there are as many scopes as the work
/// will close.
pub open spec fn balanced<'a>(s: State<'a>, base: int) -> bool {
    base >= 1 && s.scopes.len() == base + closes(s.work)
}

broadcast proof fn lemma_closes_push<'a>(work: Seq<Work<'a>>, w: Work<'a>)
    ensures
        #[trigger] closes(work.push(w)) == closes(work) + if w is CloseScope {
            1nat
        } else {
            0nat
        },
{
    assert(work.push(w).drop_last() =~= work);
}

proof fn lemma_closes_append<'a>(work: Seq<Work<'a>>, more: Seq<Work<'a>>)
    requires
        forall|i: int| 0 <= i < more.len() ==> !(#[trigger] more[i] is CloseScope),
    ensures
        closes(work + more) == closes(work),
    decreases more.len(),
{
    if more.len() == 0 {
        assert(work + more =~= work);
    } else {
        assert((work + more).drop_last() =~= work + more.drop_last());
        assert((work + more).last() == more[more.len() - 1]);
        lemma_closes_append(work, more.drop_last());
    }
}

proof fn lemma_unwound_depth(scopes: Scopes, n: nat)
    requires
        scopes.len() >= 1,
    ensures
        unwound(scopes, n).len() == if scopes.len() - n >= 1 {
            scopes.len() - n
        } else {
            1
        },
    decreases n,
{
    if n > 0 {
        lemma_unwound_depth(closed(scopes), (n - 1) as nat);
    }
}

proof fn lemma_bind_keeps_depth(
    scopes: Scopes,
    targets: Seq<AssignTarget>,
    values: Seq<ValueView>,
    n: int,
)
    requires
        scopes.len() >= 1,
    ensures
        bind(scopes, targets, values, n).len() == scopes.len(),
    decreases n,
{
    if n > 0 {
        lemma_bind_keeps_depth(scopes, targets, values, n - 1);
        match targets[n - 1] {
            AssignTarget::Variable { name, .. } => {
                lemma_assignment_keeps_depth(
                    bind(scopes, targets, values, n - 1),
                    name@,
                    values[n - 1],
                );
            },
            AssignTarget::Ignore { .. } => {},
        }
    }
}

/// An evaluation that ends early leaves the scopes that it began with.
proof fn lemma_stopped_balanced<'a>(s: State<'a>, base: int)
    requires
        balanced(s, base),
    ensures
        balanced(stopped(s), base),
        stopped(s).scopes.len() == base,
{
    lemma_unwound_depth(s.scopes, closes(s.work));
}

proof fn lemma_operate_balanced<'a>(s: State<'a>, outcome: OperationView, base: int)
    requires
        balanced(s, base),
    ensures
        balanced(operate(s, outcome).state, base),
{
    broadcast use lemma_closes_push;

    match outcome {
        Operation::Fail(e) => {
            lemma_stopped_balanced(s, base);
        },
        _ => {
            lemma_stopped_balanced(s, base);
        },
    }
}

proof fn lemma_settle_balanced<'a>(s: State<'a>, result: Result<ValueView, ErrorView>, base: int)
    requires
        balanced(s, base),
    ensures
        balanced(settle(s, result).state, base),
{
    match result {
        Err(e) => {
            lemma_stopped_balanced(s, base);
        },
        Ok(_) => {},
    }
}

proof fn lemma_evaluate_balanced<'a>(s: State<'a>, e: &'a Expr, base: int)
    requires
        balanced(s, base),
    ensures
        balanced(evaluate(s, e).state, base),
{
    broadcast use lemma_closes_push;

    match *e {
        Expr::Variable { name, span } => {
            lemma_stopped_balanced(s, base);
        },
        Expr::MultiReturn { values, .. } => {
            lemma_closes_append(s.work.push(Work::Then(e, 1)), evaluations(&values));
        },
        Expr::List { elements, .. } => {
            lemma_closes_append(s.work.push(Work::Then(e, 1)), evaluations(&elements));
        },
        Expr::Tuple { elements, .. } => {
            lemma_closes_append(s.work.push(Work::Then(e, 1)), evaluations(&elements));
        },
        _ => {},
    }
}

proof fn lemma_keyword_call_balanced<'a>(s: State<'a>, e: &'a Expr, base: int)
    requires
        balanced(s, base),
    ensures
        balanced(keyword_call(s, e).state, base),
{
    broadcast use lemma_closes_push;

    let step = keyword_call(s, e);
    if step.action is Done || step.action is Lost {
        lemma_stopped_balanced(s, base);
        lemma_stopped_balanced(without(s, 1), base);
    }
}

proof fn lemma_insert_entry_balanced<'a>(s: State<'a>, e: &'a Expr, index: usize, base: int)
    requires
        balanced(s, base),
    ensures
        balanced(insert_entry(s, e, index).state, base),
{
    broadcast use lemma_closes_push;

    let step = insert_entry(s, e, index);
    if step.action is Done || step.action is Lost {
        lemma_stopped_balanced(s, base);
        lemma_stopped_balanced(without(s, 3), base);
    }
}

proof fn lemma_resume_balanced<'a>(s: State<'a>, e: &'a Expr, stage: usize, base: int)
    requires
        balanced(s, base),
    ensures
        balanced(resume(s, e, stage).state, base),
{
    broadcast use lemma_closes_push;

    lemma_stopped_balanced(s, base);
    match *e {
        Expr::Assign { name, .. } => {
            if s.values.len() >= 1 {
                lemma_assignment_keeps_depth(s.scopes, name@, s.values.last());
            }
        },
        Expr::MultiAssign { targets, span, .. } => {
            if s.values.len() >= 1 {
                let values = unpacked(s.values.last());
                lemma_stopped_balanced(s, base);
                lemma_bind_keeps_depth(s.scopes, targets@, values, targets@.len() as int);
            }
        },
        Expr::Binary { operator, span, .. } => {
            if s.values.len() >= 2 {
                lemma_operate_balanced(
                    without(s, 2),
                    binary(operator, from_end(s, 1), from_end(s, 0), span),
                    base,
                );
            }
        },
        Expr::Unary { operator, span, .. } => {
            if s.values.len() >= 1 {
                lemma_settle_balanced(without(s, 1), unary(operator, from_end(s, 0), span), base);
            }
        },
        Expr::CallWithKwargs { .. } => {
            lemma_keyword_call_balanced(s, e, base);
        },
        Expr::Dict { .. } => {
            lemma_insert_entry_balanced(s, e, stage, base);
        },
        Expr::PropertyAccess { property, span, .. } => {
            if s.values.len() >= 1 {
                lemma_settle_balanced(
                    without(s, 1),
                    crate::operations::property(from_end(s, 0), property@, span),
                    base,
                );
            }
        },
        _ => {},
    }
}

proof fn lemma_call_balanced<'a>(s: State<'a>, args: &'a Vec<Expr>, span: Span, base: int)
    requires
        balanced(s, base),
    ensures
        balanced(call(s, args, span).state, base),
{
    broadcast use lemma_closes_push;

    let step = call(s, args, span);
    if step.action is Done || step.action is Lost {
        lemma_stopped_balanced(s, base);
        lemma_stopped_balanced(without(s, 1), base);
    }
}

proof fn lemma_execute_balanced<'a>(s: State<'a>, st: &'a Stmt, base: int)
    requires
        balanced(s, base),
    ensures
        balanced(execute(s, st).state, base),
{
    broadcast use lemma_closes_push;

    match *st {
        Stmt::Block { statements, .. } => {
            lemma_closes_append(s.work.push(Work::CloseScope), executions(&statements));
        },
        _ => {},
    }
}

proof fn lemma_proceed_balanced<'a>(s: State<'a>, st: &'a Stmt, stage: usize, base: int)
    requires
        balanced(s, base),
    ensures
        balanced(proceed(s, st, stage).state, base),
{
    broadcast use lemma_closes_push;

    lemma_stopped_balanced(s, base);
}

proof fn lemma_equal_balanced<'a>(s: State<'a>, pairs: usize, base: int)
    requires
        balanced(s, base),
    ensures
        balanced(equal(s, pairs).state, base),
{
    broadcast use lemma_closes_push;

    lemma_stopped_balanced(s, base);
    lemma_stopped_balanced(without(s, 2), base);
}

/// Every step keeps scopes and work in balance.
pub proof fn lemma_step_keeps_balance<'a>(s: State<'a>, reply: Reply, base: int)
    requires
        balanced(s, base),
    ensures
        balanced(step(s, reply).state, base),
        step(s, reply).action is Done || step(s, reply).action is Lost ==> step(
            s,
            reply,
        ).state.scopes.len() == base,
{
    broadcast use lemma_closes_push;

    if s.work.len() == 0 {
    } else {
        let rest = State { work: s.work.drop_last(), ..s };
        let top = s.work.last();
        assert(s.work =~= rest.work.push(top));
        if top is CloseScope {
            assert(balanced(State { scopes: closed(rest.scopes), ..rest }, base));
        } else {
            assert(balanced(rest, base));
            lemma_stopped_balanced(rest, base);
            match top {
                Work::Eval(e) => lemma_evaluate_balanced(rest, e, base),
                Work::Then(e, stage) => lemma_resume_balanced(rest, e, stage, base),
                Work::Exec(st) => lemma_execute_balanced(rest, st, base),
                Work::ThenStmt(st, stage) => lemma_proceed_balanced(rest, st, stage, base),
                Work::Call { args, span } => lemma_call_balanced(rest, args, span, base),
                Work::Len { span } => {
                    if rest.values.len() >= 1 {
                        lemma_settle_balanced(
                            without(rest, 1),
                            crate::operations::length(from_end(rest, 0), span),
                            base,
                        );
                    }
                },
                Work::Divmod { span } => {
                    if rest.values.len() >= 3 {
                        match from_end(rest, 0) {
                            ValueView::String(mode) => lemma_operate_balanced(
                                without(rest, 3),
                                crate::operations::divmod(
                                    from_end(rest, 2),
                                    from_end(rest, 1),
                                    mode,
                                    span,
                                ),
                                base,
                            ),
                            _ => {},
                        }
                    }
                },
                Work::Keyword { call, index } => {
                    let next = keyword(rest, call, index);
                    if next.action is Done || next.action is Lost {
                        lemma_stopped_balanced(rest, base);
                    }
                },
                Work::KeywordValue { call, index } => {
                    let next = keyword_value(rest, call, index);
                    if next.action is Done || next.action is Lost {
                        lemma_stopped_balanced(rest, base);
                        lemma_stopped_balanced(without(rest, 2), base);
                    }
                },
                Work::Equal { pairs } => lemma_equal_balanced(rest, pairs, base),
                _ => {},
            }
        }
    }
    let after = step(s, reply);
    if after.action is Done || after.action is Lost {
        if s.work.len() == 0 {
            assert(closes(s.work) == 0);
        } else {
            assert(after.state.work =~= Seq::empty());
            assert(closes(after.state.work) == 0);
        }
    }
}

/// A program's evaluation starts in balance.
pub proof fn lemma_start_is_balanced<'a>(scopes: Scopes, statements: &'a Vec<Stmt>)
    requires
        scopes.len() >= 1,
    ensures
        balanced(program_start(scopes, statements), scopes.len() as int),
{
    lemma_closes_append(Seq::empty(), executions(statements));
    assert(Seq::<Work<'a>>::empty() + executions(statements) =~= executions(statements));
}

/// Blocks close their scopes on every way out: when an evaluation that
/// began with `base` scopes ends, with a value or with an error, `base`
/// scopes are left.
pub proof fn lemma_blocks_close_their_scopes<'a>(s: State<'a>, reply: Reply, n: nat, base: int)
    requires
        balanced(s, base),
    ensures
        balanced(steps(s, reply, n).state, base),
        steps(s, reply, n).action is Done || steps(s, reply, n).action is Lost ==> steps(
            s,
            reply,
            n,
        ).state.scopes.len() == base,
    decreases n,
{
    if n > 0 {
        lemma_step_keeps_balance(s, reply, base);
        let first = step(s, reply);
        if first.action is Continue {
            lemma_blocks_close_their_scopes(first.state, Reply::Nothing, (n - 1) as nat, base);
        }
    }
}

// ---------------------------------------------------------------------------
// Parentheses
// ---------------------------------------------------------------------------
/// Whether a token of this kind ends the expression before it: it is no
/// operator between operands, no `=`, and begins no call and no property.
pub open spec fn ends_expression(kind: TokenType) -> bool {
    &&& grammar::operator_at(Level::Equality, kind) is None
    &&& grammar::operator_at(Level::Comparison, kind) is None
    &&& grammar::operator_at(Level::Term, kind) is None
    &&& grammar::operator_at(Level::Factor, kind) is None
    &&& kind != TokenType::And
    &&& kind != TokenType::Or
    &&& kind != TokenType::Equal
    &&& kind != TokenType::LeftParen
    &&& kind != TokenType::Dot
}

/// What is asked of a primary expression that stands alone: it fails,
/// or it is followed by a token that ends the expression.
pub open spec fn alone(ts: Seq<TokenView>, p: int) -> bool {
    &&& grammar::inside(ts, p)
    &&& grammar::at_end(ts, p) || grammar::unary_operator(ts[p].token_type) is None
    &&& grammar::primary(ts, p).result is Ok ==> grammar::moved(ts, p, grammar::primary(ts, p).pos)
        && ends_expression(ts[grammar::primary(ts, p).pos].token_type)
}

proof fn lemma_lone_call(ts: Seq<TokenView>, p: int)
    requires
        alone(ts, p),
    ensures
        grammar::unary(ts, p) == grammar::primary(ts, p),
{
    reveal(grammar::unary);
    reveal(grammar::call);
    let first = grammar::primary(ts, p);
    grammar::unfold_call(ts, p);
    match first.result {
        Ok(e) => {
            grammar::unfold_call_rest(ts, first.pos, e);
            assert(grammar::call_rest(ts, first.pos, e) == first);
        },
        Err(_) => {},
    }
    assert(grammar::call(ts, p) == first);
}

proof fn lemma_lone_operand(ts: Seq<TokenView>, p: int, level: Level)
    requires
        alone(ts, p),
    ensures
        grammar::binary(ts, p, level) == grammar::primary(ts, p),
    decreases grammar::level_rank(level),
{
    reveal(grammar::binary);
    reveal(grammar::binary_rest);
    reveal(grammar::operand);
    reveal(grammar::unary);
    match level {
        Level::Factor => lemma_lone_call(ts, p),
        Level::Term => lemma_lone_operand(ts, p, Level::Factor),
        Level::Comparison => lemma_lone_operand(ts, p, Level::Term),
        Level::Equality => lemma_lone_operand(ts, p, Level::Comparison),
    }
}

proof fn lemma_lone_logical(ts: Seq<TokenView>, p: int, op: LogicalOp)
    requires
        alone(ts, p),
    ensures
        grammar::logical(ts, p, op) == grammar::primary(ts, p),
    decreases grammar::logical_rank(op),
{
    reveal(grammar::logical);
    reveal(grammar::logical_rest);
    reveal(grammar::logical_operand);
    reveal(grammar::binary);
    match op {
        LogicalOp::And => lemma_lone_operand(ts, p, Level::Equality),
        LogicalOp::Or => lemma_lone_logical(ts, p, LogicalOp::And),
    }
}

/// A primary expression alone is an expression: where a primary
/// expression fails, or is followed by a token that ends it, the
/// expression is that primary expression.
pub proof fn lemma_lone_primary(ts: Seq<TokenView>, p: int)
    requires
        alone(ts, p),
    ensures
        grammar::expression(ts, p) == grammar::primary(ts, p),
{
    reveal(grammar::expression);
    reveal(grammar::assignment);
    reveal(grammar::logical);
    lemma_lone_logical(ts, p, LogicalOp::Or);
}

/// An integer in `n` pairs of parentheses, from token `p` on.
pub open spec fn nested(ts: Seq<TokenView>, p: int, n: int, closings: int) -> bool {
    &&& 0 <= closings <= n
    &&& 0 <= p
    &&& p + n + closings + 1 < ts.len()
    &&& forall|i: int| p <= i < p + n ==> (#[trigger] ts[i]).token_type == TokenType::LeftParen
    &&& ts[p + n].token_type == TokenType::Integer
    &&& grammar::parse_int(ts[p + n].lexeme) is Some
    &&& forall|i: int|
        p + n < i <= p + n + closings ==> (#[trigger] ts[i]).token_type == TokenType::RightParen
}

/// Parentheses that match: an integer in `n` pairs of parentheses is an
/// expression, whatever `n` is.
pub proof fn lemma_matched_parentheses(ts: Seq<TokenView>, p: int, n: int)
    requires
        nested(ts, p, n, n),
        ends_expression(ts[p + 2 * n + 1].token_type),
    ensures
        grammar::expression(ts, p).result is Ok,
        grammar::expression(ts, p).pos == p + 2 * n + 1,
    decreases n,
{
    grammar::unfold_primary(ts, p);
    if n == 0 {
        assert(grammar::primary(ts, p).pos == p + 1);
        lemma_lone_primary(ts, p);
    } else {
        assert(ts[p].token_type == TokenType::LeftParen);
        assert(ts[p + 2 * n].token_type == TokenType::RightParen);
        if n > 1 {
            assert(ts[p + 1].token_type == TokenType::LeftParen);
        }
        assert(nested(ts, p + 1, n - 1, n - 1));
        lemma_matched_parentheses(ts, p + 1, n - 1);
        assert(grammar::primary(ts, p).result is Ok);
        assert(grammar::primary(ts, p).pos == p + 2 * n + 1);
        lemma_lone_primary(ts, p);
    }
}

/// A parenthesis that is not closed: an integer in `n` opening
/// parentheses of which fewer are closed before the input ends is
/// reported as such, whatever `n` is.
pub proof fn lemma_unmatched_parentheses(ts: Seq<TokenView>, p: int, n: int, closings: int)
    requires
        nested(ts, p, n, closings),
        closings < n,
        grammar::at_end(ts, p + n + closings + 1),
    ensures
        grammar::expression(ts, p).result matches Err(e) && e.message
            == "Expected ')' after expression"@,
    decreases n,
{
    grammar::unfold_primary(ts, p);
    assert(ts[p].token_type == TokenType::LeftParen);
    if n > 1 {
        assert(ts[p + 1].token_type == TokenType::LeftParen);
    }
    if closings == n - 1 {
        if n > 1 {
            assert(ts[p + 2 * n - 1].token_type == TokenType::RightParen);
        }
        assert(nested(ts, p + 1, n - 1, n - 1));
        lemma_matched_parentheses(ts, p + 1, n - 1);
    } else {
        assert(nested(ts, p + 1, n - 1, closings));
        lemma_unmatched_parentheses(ts, p + 1, n - 1, closings);
    }
    assert(grammar::primary(ts, p).result is Err);
    lemma_lone_primary(ts, p);
}

/// An expression at the start of the tokens is the first statement.
proof fn lemma_first_statement(ts: Seq<TokenView>)
    requires
        grammar::inside(ts, 0),
        ts[0].token_type == TokenType::LeftParen || ts[0].token_type == TokenType::Integer,
    ensures
        grammar::statement(ts, 0) == grammar::expression_statement(ts, 0),
        grammar::expression(ts, 0).result matches Err(e) ==> grammar::expression_statement(
            ts,
            0,
        ).result == Err::<crate::ast::StmtView, ErrorView>(e),
        grammar::expression(ts, 0).result is Ok ==> grammar::expression_statement(ts, 0).result
            is Ok && grammar::expression_statement(ts, 0).pos == if grammar::check(
            ts,
            grammar::expression(ts, 0).pos,
            TokenType::Semicolon,
        ) {
            grammar::expression(ts, 0).pos + 1
        } else {
            grammar::expression(ts, 0).pos
        },
{
    reveal(grammar::statement);
    reveal(grammar::expression_statement);
    reveal(grammar::expression);
}

/// A source that is an integer in `n` pairs of parentheses is a program
/// of one statement, whatever `n` is.
pub proof fn lemma_nested_parentheses_parse(ts: Seq<TokenView>, n: int)
    requires
        nested(ts, 0, n, n),
        grammar::at_end(ts, 2 * n + 1),
    ensures
        grammar::parse(ts) matches Ok(statements) && statements.len() == 1,
{
    reveal_with_fuel(grammar::program, 3);
    reveal(grammar::statement);
    assert(ts[0].token_type == TokenType::LeftParen || ts[0].token_type == TokenType::Integer);
    lemma_matched_parentheses(ts, 0, n);
    lemma_first_statement(ts);
}

/// A source in which a parenthesis is not closed is no program: the
/// parser reports that it expected `)` after the expression, at any
/// depth of nesting.
pub proof fn lemma_unclosed_parenthesis_is_reported(ts: Seq<TokenView>, n: int, closings: int)
    requires
        nested(ts, 0, n, closings),
        closings < n,
        grammar::at_end(ts, n + closings + 1),
    ensures
        grammar::parse(ts) matches Err(e) && e.message == "Expected ')' after expression"@,
{
    reveal(grammar::program);
    reveal(grammar::statement);
    assert(ts[0].token_type == TokenType::LeftParen);
    lemma_unmatched_parentheses(ts, 0, n, closings);
    lemma_first_statement(ts);
}

/// The text of the digit `1` after `n` opening parentheses and before
/// `m` closing ones.
pub open spec fn parenthesised(n: nat, m: nat) -> Seq<char> {
    Seq::new(n, |i: int| '(') + seq!['1'] + Seq::new(m, |i: int| ')')
}

/// The token for character `i` of such a text.
pub open spec fn stands_for(t: TokenView, n: nat, i: int) -> bool {
    if i < n {
        t.token_type == TokenType::LeftParen
    } else if i == n {
        t.token_type == TokenType::Integer && t.lexeme == seq!['1']
    } else {
        t.token_type == TokenType::RightParen
    }
}

proof fn lemma_scan_of_parentheses(n: nat, m: nat, p: int, found: Seq<TokenView>)
    requires
        0 <= p <= n + 1 + m,
        found.len() == p,
        forall|i: int| 0 <= i < p ==> stands_for(#[trigger] found[i], n, i),
    ensures
        scan_from(parenthesised(n, m), p, found) matches Ok(ts) && ts.len() == n + m + 2 && ts.last()
            == eof_token(parenthesised(n, m)) && forall|i: int|
            0 <= i < n + 1 + m ==> stands_for(#[trigger] ts[i], n, i),
    decreases n + 1 + m - p,
{
    let s = parenthesised(n, m);
    assert(s.len() == n + 1 + m);
    if p < s.len() {
        let c = s[p];
        let step = lex_step(s, p);
        if p < n {
            assert(c == '(');
        } else if p == n {
            assert(c == '1');
            assert(p + 1 == s.len() || s[p + 1] == ')');
            assert(run_end(s, p + 1, Run::Digits) == p + 1);
            let digits = s.subrange(p, p + 1);
            assert(digits =~= seq!['1']);
            assert(digits.drop_last() =~= Seq::<char>::empty());
            assert(crate::lexer::decimal_value(digits.drop_last()) == 0);
            assert(crate::lexer::decimal_value(digits) == 1);
            assert(step == lex_number(s, p));
        } else {
            assert(c == ')');
        }
        assert(step.end == p + 1);
        assert(step.out is Emit);
        let t = step.out->Emit_0;
        assert(stands_for(t, n, p));
        lemma_scan_of_parentheses(n, m, p + 1, found.push(t));
    }
}

/// The number that the text `1` denotes.
proof fn lemma_one_is_an_integer()
    ensures
        grammar::parse_int(seq!['1']) is Some,
{
    let digits = seq!['1'];
    assert(digits.drop_last() =~= Seq::<char>::empty());
    assert(crate::lexer::decimal_value(digits.drop_last()) == 0);
    assert(crate::lexer::decimal_value(digits) == 1);
}

/// Nested parentheses in source text: an integer in `n` pairs of
/// parentheses is a program of one statement, whatever `n` is; and where
/// fewer parentheses are closed than were opened, the source is no
/// program, and the error says that `)` was expected after the
/// expression.
pub proof fn lemma_parentheses_in_source(n: nat, m: nat)
    requires
        m <= n,
    ensures
        scan(parenthesised(n, m)) is Ok,
        m == n ==> (grammar::parse(scan(parenthesised(n, m))->Ok_0) matches Ok(statements)
            && statements.len() == 1),
        m < n ==> (grammar::parse(scan(parenthesised(n, m))->Ok_0) matches Err(e) && e.message
            == "Expected ')' after expression"@),
{
    lemma_scan_of_parentheses(n, m, 0, Seq::empty());
    lemma_one_is_an_integer();
    let ts = scan(parenthesised(n, m))->Ok_0;
    assert forall|i: int| 0 <= i < n implies (#[trigger] ts[i]).token_type
        == TokenType::LeftParen by {
        assert(stands_for(ts[i], n, i));
    }
    assert(stands_for(ts[n as int], n, n as int));
    assert forall|i: int| n < i <= n + m implies (#[trigger] ts[i]).token_type
        == TokenType::RightParen by {
        assert(stands_for(ts[i], n, i));
    }
    assert(nested(ts, 0, n as int, m as int));
    if m == n {
        lemma_nested_parentheses_parse(ts, n as int);
    } else {
        lemma_unclosed_parenthesis_is_reported(ts, n as int, m as int);
    }
}

} // verus!
