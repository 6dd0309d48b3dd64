//! Every span of a program is in order.
//!
//! Where the tokens stand in the order of the source, as the tokens of
//! a scan do, every statement and every expression of the program that
//! the grammar gives has a span that starts no later than it ends; and
//! where the grammar gives an error, so has the error. No literal
//! of such a program holds a dictionary with a key that occurs twice.
use crate::ast::{
    expr_span, stmt_span, AssignTargetView, ExprView, KeywordArgView, LogicalOp, StmtView,
};
use crate::error::Span;
use crate::grammar;
use crate::grammar::{Arguments, ForClauses, Level};
use crate::laws::{in_order, lemma_scan_is_in_order};
use crate::lexer::{byte_len, scan, well_formed_tokens, TokenType, TokenView};
use crate::runner::program_of;
use crate::value::well_keyed;
use vstd::prelude::*;

verus! {

/// A span that ends no earlier than it starts.
pub open spec fn ordered(span: Span) -> bool {
    span.start <= span.end
}

/// The span of an assignment target.
pub open spec fn target_span(t: AssignTargetView) -> Span {
    match t {
        AssignTargetView::Variable { span, .. } => span,
        AssignTargetView::Ignore { span } => span,
    }
}

/// The span of the expression and the spans of all its parts are in
/// order, and no literal in it holds a dictionary with a key that occurs
/// twice.
pub open spec fn tidy(e: ExprView) -> bool
    decreases e,
{
    &&& ordered(expr_span(e))
    &&& match e {
        ExprView::Literal { value, .. } => well_keyed(value),
        ExprView::DoubleLiteral { .. } => true,
        ExprView::Variable { .. } => true,
        ExprView::Assign { value, .. } => tidy(*value),
        ExprView::MultiAssign { targets, value, .. } => tidy(*value) && forall|i: int|
            0 <= i < targets.len() ==> ordered(target_span(#[trigger] targets[i])),
        ExprView::Binary { left, right, .. } => tidy(*left) && tidy(*right),
        ExprView::Unary { operand, .. } => tidy(*operand),
        ExprView::Logical { left, right, .. } => tidy(*left) && tidy(*right),
        ExprView::Call { callee, args, .. } => tidy(*callee) && forall|i: int|
            0 <= i < args.len() ==> tidy(#[trigger] args[i]),
        ExprView::CallWithKwargs { callee, positional_args, keyword_args, .. } => {
            &&& tidy(*callee)
            &&& forall|i: int|
                0 <= i < positional_args.len() ==> tidy(#[trigger] positional_args[i])
            &&& forall|i: int|
                0 <= i < keyword_args.len() ==> ordered((#[trigger] keyword_args[i]).span) && tidy(
                    keyword_args[i].value,
                )
        },
        ExprView::MultiReturn { values, .. } => forall|i: int|
            0 <= i < values.len() ==> tidy(#[trigger] values[i]),
        ExprView::Grouping { expr, .. } => tidy(*expr),
        ExprView::List { elements, .. } => forall|i: int|
            0 <= i < elements.len() ==> tidy(#[trigger] elements[i]),
        ExprView::Dict { pairs, .. } => forall|i: int|
            0 <= i < pairs.len() ==> tidy((#[trigger] pairs[i]).0) && tidy(pairs[i].1),
        ExprView::PropertyAccess { object, .. } => tidy(*object),
        ExprView::Tuple { elements, .. } => forall|i: int|
            0 <= i < elements.len() ==> tidy(#[trigger] elements[i]),
    }
}

/// The span of the statement and the spans of all its parts are in
/// order, and so are its expressions.
pub open spec fn tidy_statement(s: StmtView) -> bool
    decreases s,
{
    &&& ordered(stmt_span(s))
    &&& match s {
        StmtView::Expression { expr, .. } => tidy(expr),
        StmtView::Block { statements, .. } => forall|i: int|
            0 <= i < statements.len() ==> tidy_statement(#[trigger] statements[i]),
        StmtView::If { condition, then_branch, else_branch, .. } => {
            &&& tidy(condition)
            &&& tidy_statement(*then_branch)
            &&& match else_branch {
                Some(other) => tidy_statement(*other),
                None => true,
            }
        },
        StmtView::While { condition, body, .. } => tidy(condition) && tidy_statement(*body),
        StmtView::For { initializer, condition, increment, body, .. } => {
            &&& match initializer {
                Some(first) => tidy_statement(*first),
                None => true,
            }
            &&& match condition {
                Some(c) => tidy(c),
                None => true,
            }
            &&& match increment {
                Some(i) => tidy(i),
                None => true,
            }
            &&& tidy_statement(*body)
        },
    }
}

/// Every expression of the sequence is tidy.
pub open spec fn all_tidy(es: Seq<ExprView>) -> bool {
    forall|i: int| 0 <= i < es.len() ==> tidy(#[trigger] es[i])
}

/// Every statement of the sequence is tidy.
pub open spec fn all_tidy_statements(ss: Seq<StmtView>) -> bool {
    forall|i: int| 0 <= i < ss.len() ==> tidy_statement(#[trigger] ss[i])
}

/// Every key and every value of the sequence is tidy.
pub open spec fn all_tidy_pairs(pairs: Seq<(ExprView, ExprView)>) -> bool {
    forall|i: int| 0 <= i < pairs.len() ==> tidy((#[trigger] pairs[i]).0) && tidy(pairs[i].1)
}

/// Every keyword argument of the sequence is tidy.
pub open spec fn all_tidy_keywords(args: Seq<KeywordArgView>) -> bool {
    forall|i: int|
        0 <= i < args.len() ==> ordered((#[trigger] args[i]).span) && tidy(args[i].value)
}

/// The tokens stand in the order of the source and end with the end
/// token.
pub open spec fn settled(ts: Seq<TokenView>) -> bool {
    &&& in_order(ts)
    &&& well_formed_tokens(ts)
    &&& ts.len() <= usize::MAX
}

/// The expression is tidy and spans the tokens from `p` up to `q`.
pub open spec fn covers(e: ExprView, ts: Seq<TokenView>, p: int, q: int) -> bool {
    &&& tidy(e)
    &&& 0 <= p < q < ts.len()
    &&& expr_span(e).start == ts[p].span.start
    &&& expr_span(e).end == ts[q - 1].span.end
}

/// The statement is tidy and ends with the token before `q`.
pub open spec fn ends_at(s: StmtView, ts: Seq<TokenView>, p: int, q: int) -> bool {
    &&& tidy_statement(s)
    &&& 0 <= p < q < ts.len()
    &&& stmt_span(s).end == ts[q - 1].span.end
}

/// Of tokens in order, an earlier one starts no later than a later one
/// ends.
proof fn lemma_order(ts: Seq<TokenView>, a: int, b: int)
    requires
        in_order(ts),
        0 <= a <= b < ts.len(),
    ensures
        ts[a].span.start <= ts[b].span.end,
        ordered(Span { start: ts[a].span.start, end: ts[b].span.end }),
{
    assert(ts[a].span.start <= ts[a].span.end);
    if a < b {
        assert(ts[a].span.end <= ts[b].span.start);
        assert(ts[b].span.start <= ts[b].span.end);
    }
}

// ---------------------------------------------------------------------------
// Expressions
// ---------------------------------------------------------------------------
proof fn lemma_primary(ts: Seq<TokenView>, p: int)
    requires
        settled(ts),
    ensures
        grammar::primary(ts, p).result matches Ok(e) ==> covers(e, ts, p, grammar::primary(ts, p).pos),
        grammar::primary(ts, p).result matches Err(e) ==> ordered(e.span),
        grammar::inside(ts, p) ==> p <= grammar::primary(ts, p).pos < ts.len(),
    decreases ts.len() - p, 0int,
{
    grammar::unfold_primary(ts, p);
    if grammar::inside(ts, p) && !grammar::at_end(ts, p) {
        lemma_order(ts, p, p);
        let kind = ts[p].token_type;
        if kind == TokenType::LeftParen {
            if grammar::inside(ts, p + 1) && !grammar::at_end(ts, p + 1) && !grammar::check(
                ts,
                p + 1,
                TokenType::RightParen,
            ) {
                lemma_expression(ts, p + 1);
                let inner = grammar::expression(ts, p + 1);
                if inner.result is Ok && inner.pos < ts.len() {
                    lemma_order(ts, p, inner.pos);
                }
            }
        } else if kind == TokenType::LeftBracket {
            lemma_list_literal(ts, p + 1, ts[p].span);
        } else if kind == TokenType::LeftBrace {
            lemma_dict_literal(ts, p + 1, ts[p].span);
        }
    }
}

proof fn lemma_list_literal(ts: Seq<TokenView>, p: int, start: Span)
    requires
        settled(ts),
        1 <= p,
        p - 1 < ts.len(),
        start == ts[p - 1].span,
    ensures
        grammar::list_literal(ts, p, start).result matches Ok(e) ==> covers(
            e,
            ts,
            p - 1,
            grammar::list_literal(ts, p, start).pos,
        ),
        grammar::list_literal(ts, p, start).result matches Err(e) ==> ordered(e.span),
        grammar::inside(ts, p) ==> p <= grammar::list_literal(ts, p, start).pos < ts.len(),
    decreases ts.len() - p, 36int,
{
    grammar::unfold_list_literal(ts, p, start);
    if grammar::inside(ts, p) {
        if !grammar::check(ts, p, TokenType::RightBracket) {
            lemma_list_items(ts, p, Seq::empty());
        }
        let items = if grammar::check(ts, p, TokenType::RightBracket) {
            grammar::done(Seq::empty(), p)
        } else {
            grammar::list_items(ts, p, Seq::empty())
        };
        if items.result is Ok && grammar::inside(ts, items.pos) {
            lemma_order(ts, p - 1, items.pos);
        }
    }
}

proof fn lemma_list_items(ts: Seq<TokenView>, p: int, found: Seq<ExprView>)
    requires
        settled(ts),
        all_tidy(found),
    ensures
        grammar::list_items(ts, p, found).result matches Ok(items) ==> all_tidy(items) && p
            <= grammar::list_items(ts, p, found).pos < ts.len(),
        grammar::list_items(ts, p, found).result matches Err(e) ==> ordered(e.span),
        grammar::inside(ts, p) ==> p <= grammar::list_items(ts, p, found).pos < ts.len(),
    decreases ts.len() - p, 35int,
{
    grammar::unfold_list_items(ts, p, found);
    if grammar::inside(ts, p) {
        lemma_expression(ts, p);
        let item = grammar::expression(ts, p);
        match item.result {
            Ok(e) => {
                if grammar::moved(ts, p, item.pos) {
                    assert(all_tidy(found.push(e)));
                    if grammar::check(ts, item.pos, TokenType::Comma) {
                        lemma_list_items(ts, item.pos + 1, found.push(e));
                    }
                }
            },
            Err(_) => {},
        }
    }
}

proof fn lemma_dict_literal(ts: Seq<TokenView>, p: int, start: Span)
    requires
        settled(ts),
        1 <= p,
        p - 1 < ts.len(),
        start == ts[p - 1].span,
    ensures
        grammar::dict_literal(ts, p, start).result matches Ok(e) ==> covers(
            e,
            ts,
            p - 1,
            grammar::dict_literal(ts, p, start).pos,
        ),
        grammar::dict_literal(ts, p, start).result matches Err(e) ==> ordered(e.span),
        grammar::inside(ts, p) ==> p <= grammar::dict_literal(ts, p, start).pos < ts.len(),
    decreases ts.len() - p, 36int,
{
    grammar::unfold_dict_literal(ts, p, start);
    if grammar::inside(ts, p) {
        if !grammar::check(ts, p, TokenType::RightBrace) {
            lemma_dict_items(ts, p, Seq::empty());
        }
        let items = if grammar::check(ts, p, TokenType::RightBrace) {
            grammar::done(Seq::empty(), p)
        } else {
            grammar::dict_items(ts, p, Seq::empty())
        };
        if items.result is Ok && grammar::inside(ts, items.pos) {
            lemma_order(ts, p - 1, items.pos);
        }
    }
}

proof fn lemma_dict_items(ts: Seq<TokenView>, p: int, found: Seq<(ExprView, ExprView)>)
    requires
        settled(ts),
        all_tidy_pairs(found),
    ensures
        grammar::dict_items(ts, p, found).result matches Ok(items) ==> all_tidy_pairs(items) && p
            <= grammar::dict_items(ts, p, found).pos < ts.len(),
        grammar::dict_items(ts, p, found).result matches Err(e) ==> ordered(e.span),
        grammar::inside(ts, p) ==> p <= grammar::dict_items(ts, p, found).pos < ts.len(),
    decreases ts.len() - p, 35int,
{
    grammar::unfold_dict_items(ts, p, found);
    if grammar::inside(ts, p) {
        lemma_expression(ts, p);
        let key = grammar::expression(ts, p);
        match key.result {
            Ok(k) => {
                if grammar::moved(ts, p, key.pos) && grammar::check(
                    ts,
                    key.pos,
                    TokenType::Colon,
                ) && grammar::inside(ts, key.pos + 1) {
                    lemma_expression(ts, key.pos + 1);
                    let value = grammar::expression(ts, key.pos + 1);
                    match value.result {
                        Ok(v) => {
                            if grammar::moved(ts, key.pos + 1, value.pos) {
                                assert(all_tidy_pairs(found.push((k, v))));
                                if grammar::check(ts, value.pos, TokenType::Comma) {
                                    lemma_dict_items(ts, value.pos + 1, found.push((k, v)));
                                }
                            }
                        },
                        Err(_) => {},
                    }
                }
            },
            Err(_) => {},
        }
    }
}

/// The arguments of a call are tidy.
pub open spec fn tidy_arguments(args: Arguments) -> bool {
    all_tidy(args.positional) && all_tidy_keywords(args.keyword)
}

proof fn lemma_call_args(ts: Seq<TokenView>, p: int, found: Arguments)
    requires
        settled(ts),
        tidy_arguments(found),
    ensures
        grammar::call_args(ts, p, found).result matches Ok(args) ==> tidy_arguments(args) && p
            <= grammar::call_args(ts, p, found).pos < ts.len(),
        grammar::call_args(ts, p, found).result matches Err(e) ==> ordered(e.span),
        grammar::inside(ts, p) ==> p <= grammar::call_args(ts, p, found).pos < ts.len(),
    decreases ts.len() - p, 35int,
{
    grammar::unfold_call_args(ts, p, found);
    if grammar::inside(ts, p) && !grammar::at_end(ts, p) {
        lemma_order(ts, p, p);
        if grammar::check(ts, p, TokenType::Identifier) && grammar::inside(ts, p + 1)
            && grammar::check(ts, p + 1, TokenType::Equal) {
            if grammar::inside(ts, p + 2) {
                lemma_expression(ts, p + 2);
                let value = grammar::expression(ts, p + 2);
                match value.result {
                    Ok(v) => {
                        let next = Arguments {
                            positional: found.positional,
                            keyword: found.keyword.push(
                                KeywordArgView { name: ts[p].lexeme, value: v, span: ts[p].span },
                            ),
                        };
                        assert(tidy_arguments(next));
                        if grammar::moved(ts, p, value.pos) {
                            lemma_call_args_next(ts, value.pos, next);
                        }
                    },
                    Err(_) => {},
                }
            }
        } else if found.keyword.len() == 0 {
            lemma_expression(ts, p);
            let value = grammar::expression(ts, p);
            match value.result {
                Ok(v) => {
                    let next = Arguments {
                        positional: found.positional.push(v),
                        keyword: found.keyword,
                    };
                    assert(tidy_arguments(next));
                    if grammar::moved(ts, p, value.pos) {
                        lemma_call_args_next(ts, value.pos, next);
                    }
                },
                Err(_) => {},
            }
        }
    }
}

proof fn lemma_call_args_next(ts: Seq<TokenView>, q: int, found: Arguments)
    requires
        settled(ts),
        tidy_arguments(found),
    ensures
        grammar::call_args_next(ts, q, found).result matches Ok(args) ==> tidy_arguments(args) && q
            <= grammar::call_args_next(ts, q, found).pos < ts.len(),
        grammar::call_args_next(ts, q, found).result matches Err(e) ==> ordered(e.span),
        grammar::inside(ts, q) ==> q <= grammar::call_args_next(ts, q, found).pos < ts.len(),
    decreases ts.len() - q, 34int,
{
    grammar::unfold_call_args_next(ts, q, found);
    if grammar::inside(ts, q) && grammar::check(ts, q, TokenType::Comma) && grammar::inside(
        ts,
        q + 1,
    ) && !grammar::at_end(ts, q + 1) {
        lemma_call_args(ts, q + 1, found);
    }
}

proof fn lemma_finish_call(ts: Seq<TokenView>, from: int, p: int, callee: ExprView)
    requires
        settled(ts),
        1 <= p,
        covers(callee, ts, from, p - 1),
    ensures
        grammar::finish_call(ts, p, callee).result matches Ok(e) ==> covers(
            e,
            ts,
            from,
            grammar::finish_call(ts, p, callee).pos,
        ),
        grammar::finish_call(ts, p, callee).result matches Err(e) ==> ordered(e.span),
        grammar::inside(ts, p) ==> p <= grammar::finish_call(ts, p, callee).pos < ts.len(),
    decreases ts.len() - p, 36int,
{
    grammar::unfold_finish_call(ts, p, callee);
    if grammar::inside(ts, p) {
        let none = Arguments { positional: Seq::empty(), keyword: Seq::empty() };
        assert(tidy_arguments(none));
        if !grammar::check(ts, p, TokenType::RightParen) {
            lemma_call_args(ts, p, none);
        }
        let args = if grammar::check(ts, p, TokenType::RightParen) {
            grammar::done(none, p)
        } else {
            grammar::call_args(ts, p, none)
        };
        if args.result is Ok && grammar::inside(ts, args.pos) {
            lemma_order(ts, from, args.pos);
        }
    }
}

proof fn lemma_call_rest(ts: Seq<TokenView>, from: int, p: int, callee: ExprView)
    requires
        settled(ts),
        covers(callee, ts, from, p),
    ensures
        grammar::call_rest(ts, p, callee).result matches Ok(e) ==> covers(
            e,
            ts,
            from,
            grammar::call_rest(ts, p, callee).pos,
        ),
        grammar::call_rest(ts, p, callee).result matches Err(e) ==> ordered(e.span),
        grammar::inside(ts, p) ==> p <= grammar::call_rest(ts, p, callee).pos < ts.len(),
    decreases ts.len() - p, 1int,
{
    grammar::unfold_call_rest(ts, p, callee);
    if grammar::inside(ts, p) {
        if grammar::check(ts, p, TokenType::LeftParen) {
            lemma_finish_call(ts, from, p + 1, callee);
            let call = grammar::finish_call(ts, p + 1, callee);
            match call.result {
                Ok(e) => {
                    if grammar::moved(ts, p, call.pos) {
                        lemma_call_rest(ts, from, call.pos, e);
                    }
                },
                Err(_) => {},
            }
        } else if grammar::check(ts, p, TokenType::Dot) {
            if grammar::inside(ts, p + 1) && grammar::check(ts, p + 1, TokenType::Identifier) {
                lemma_order(ts, from, p + 1);
                let token = ts[p + 1];
                let access = ExprView::PropertyAccess {
                    object: Box::new(callee),
                    property: token.lexeme,
                    span: Span { start: expr_span(callee).start, end: token.span.end },
                };
                if p + 2 < ts.len() {
                    assert(covers(access, ts, from, p + 2));
                    lemma_call_rest(ts, from, p + 2, access);
                }
            }
        }
    }
}

proof fn lemma_call(ts: Seq<TokenView>, p: int)
    requires
        settled(ts),
    ensures
        grammar::call(ts, p).result matches Ok(e) ==> covers(e, ts, p, grammar::call(ts, p).pos),
        grammar::call(ts, p).result matches Err(e) ==> ordered(e.span),
        grammar::inside(ts, p) ==> p <= grammar::call(ts, p).pos < ts.len(),
    decreases ts.len() - p, 2int,
{
    grammar::unfold_call(ts, p);
    if grammar::inside(ts, p) {
        lemma_primary(ts, p);
        let first = grammar::primary(ts, p);
        match first.result {
            Ok(e) => {
                if grammar::moved(ts, p, first.pos) {
                    lemma_call_rest(ts, p, first.pos, e);
                }
            },
            Err(_) => {},
        }
    }
}

proof fn lemma_unary(ts: Seq<TokenView>, p: int)
    requires
        settled(ts),
    ensures
        grammar::unary(ts, p).result matches Ok(e) ==> covers(e, ts, p, grammar::unary(ts, p).pos),
        grammar::unary(ts, p).result matches Err(e) ==> ordered(e.span),
        grammar::inside(ts, p) ==> p <= grammar::unary(ts, p).pos < ts.len(),
    decreases ts.len() - p, 3int,
{
    grammar::unfold_unary(ts, p);
    if grammar::inside(ts, p) {
        if !grammar::at_end(ts, p) && grammar::unary_operator(ts[p].token_type) is Some {
            lemma_unary(ts, p + 1);
            let operand = grammar::unary(ts, p + 1);
            if operand.result is Ok {
                lemma_order(ts, p, operand.pos - 1);
            }
        } else {
            lemma_call(ts, p);
        }
    }
}

proof fn lemma_operand(ts: Seq<TokenView>, p: int, level: Level)
    requires
        settled(ts),
    ensures
        grammar::operand(ts, p, level).result matches Ok(e) ==> covers(
            e,
            ts,
            p,
            grammar::operand(ts, p, level).pos,
        ),
        grammar::operand(ts, p, level).result matches Err(e) ==> ordered(e.span),
        grammar::inside(ts, p) ==> p <= grammar::operand(ts, p, level).pos < ts.len(),
    decreases ts.len() - p, 4 + 3 * grammar::level_rank(level),
{
    grammar::unfold_operand(ts, p, level);
    if grammar::inside(ts, p) {
        match level {
            Level::Equality => lemma_binary(ts, p, Level::Comparison),
            Level::Comparison => lemma_binary(ts, p, Level::Term),
            Level::Term => lemma_binary(ts, p, Level::Factor),
            Level::Factor => lemma_unary(ts, p),
        }
    }
}

proof fn lemma_binary_rest(ts: Seq<TokenView>, from: int, p: int, level: Level, left: ExprView)
    requires
        settled(ts),
        covers(left, ts, from, p),
    ensures
        grammar::binary_rest(ts, p, level, left).result matches Ok(e) ==> covers(
            e,
            ts,
            from,
            grammar::binary_rest(ts, p, level, left).pos,
        ),
        grammar::binary_rest(ts, p, level, left).result matches Err(e) ==> ordered(e.span),
        grammar::inside(ts, p) ==> p <= grammar::binary_rest(ts, p, level, left).pos < ts.len(),
    decreases ts.len() - p, 5 + 3 * grammar::level_rank(level),
{
    grammar::unfold_binary_rest(ts, p, level, left);
    if grammar::inside(ts, p) && !grammar::at_end(ts, p) && grammar::operator_at(
        level,
        ts[p].token_type,
    ) is Some {
        lemma_operand(ts, p + 1, level);
        let right = grammar::operand(ts, p + 1, level);
        match right.result {
            Ok(e) => {
                if grammar::moved(ts, p, right.pos) {
                    lemma_order(ts, from, right.pos - 1);
                    let both = ExprView::Binary {
                        left: Box::new(left),
                        operator: grammar::operator_at(level, ts[p].token_type)->0,
                        right: Box::new(e),
                        span: Span { start: expr_span(left).start, end: expr_span(e).end },
                    };
                    assert(covers(both, ts, from, right.pos));
                    lemma_binary_rest(ts, from, right.pos, level, both);
                }
            },
            Err(_) => {},
        }
    }
}

proof fn lemma_binary(ts: Seq<TokenView>, p: int, level: Level)
    requires
        settled(ts),
    ensures
        grammar::binary(ts, p, level).result matches Ok(e) ==> covers(
            e,
            ts,
            p,
            grammar::binary(ts, p, level).pos,
        ),
        grammar::binary(ts, p, level).result matches Err(e) ==> ordered(e.span),
        grammar::inside(ts, p) ==> p <= grammar::binary(ts, p, level).pos < ts.len(),
    decreases ts.len() - p, 6 + 3 * grammar::level_rank(level),
{
    grammar::unfold_binary(ts, p, level);
    if grammar::inside(ts, p) {
        lemma_operand(ts, p, level);
        let first = grammar::operand(ts, p, level);
        match first.result {
            Ok(e) => {
                if grammar::moved(ts, p, first.pos) {
                    lemma_binary_rest(ts, p, first.pos, level, e);
                }
            },
            Err(_) => {},
        }
    }
}

proof fn lemma_logical_operand(ts: Seq<TokenView>, p: int, op: LogicalOp)
    requires
        settled(ts),
    ensures
        grammar::logical_operand(ts, p, op).result matches Ok(e) ==> covers(
            e,
            ts,
            p,
            grammar::logical_operand(ts, p, op).pos,
        ),
        grammar::logical_operand(ts, p, op).result matches Err(e) ==> ordered(e.span),
        grammar::inside(ts, p) ==> p <= grammar::logical_operand(ts, p, op).pos < ts.len(),
    decreases ts.len() - p, 20 + 3 * grammar::logical_rank(op),
{
    grammar::unfold_logical_operand(ts, p, op);
    if grammar::inside(ts, p) {
        match op {
            LogicalOp::And => lemma_binary(ts, p, Level::Equality),
            LogicalOp::Or => lemma_logical(ts, p, LogicalOp::And),
        }
    }
}

proof fn lemma_logical_rest(ts: Seq<TokenView>, from: int, p: int, op: LogicalOp, left: ExprView)
    requires
        settled(ts),
        covers(left, ts, from, p),
    ensures
        grammar::logical_rest(ts, p, op, left).result matches Ok(e) ==> covers(
            e,
            ts,
            from,
            grammar::logical_rest(ts, p, op, left).pos,
        ),
        grammar::logical_rest(ts, p, op, left).result matches Err(e) ==> ordered(e.span),
        grammar::inside(ts, p) ==> p <= grammar::logical_rest(ts, p, op, left).pos < ts.len(),
    decreases ts.len() - p, 21 + 3 * grammar::logical_rank(op),
{
    grammar::unfold_logical_rest(ts, p, op, left);
    if grammar::inside(ts, p) && grammar::check(ts, p, grammar::logical_token(op)) {
        lemma_logical_operand(ts, p + 1, op);
        let right = grammar::logical_operand(ts, p + 1, op);
        match right.result {
            Ok(e) => {
                if grammar::moved(ts, p, right.pos) {
                    lemma_order(ts, from, right.pos - 1);
                    let both = ExprView::Logical {
                        left: Box::new(left),
                        operator: op,
                        right: Box::new(e),
                        span: Span { start: expr_span(left).start, end: expr_span(e).end },
                    };
                    assert(covers(both, ts, from, right.pos));
                    lemma_logical_rest(ts, from, right.pos, op, both);
                }
            },
            Err(_) => {},
        }
    }
}

proof fn lemma_logical(ts: Seq<TokenView>, p: int, op: LogicalOp)
    requires
        settled(ts),
    ensures
        grammar::logical(ts, p, op).result matches Ok(e) ==> covers(
            e,
            ts,
            p,
            grammar::logical(ts, p, op).pos,
        ),
        grammar::logical(ts, p, op).result matches Err(e) ==> ordered(e.span),
        grammar::inside(ts, p) ==> p <= grammar::logical(ts, p, op).pos < ts.len(),
    decreases ts.len() - p, 22 + 3 * grammar::logical_rank(op),
{
    grammar::unfold_logical(ts, p, op);
    if grammar::inside(ts, p) {
        lemma_logical_operand(ts, p, op);
        let first = grammar::logical_operand(ts, p, op);
        match first.result {
            Ok(e) => {
                if grammar::moved(ts, p, first.pos) {
                    lemma_logical_rest(ts, p, first.pos, op, e);
                }
            },
            Err(_) => {},
        }
    }
}

/// The targets of a multi-assignment have the spans of the elements.
proof fn lemma_targets(elements: Seq<ExprView>, n: int)
    requires
        all_tidy(elements),
        0 <= n <= elements.len(),
    ensures
        grammar::targets_of(elements, n) matches Ok(targets) ==> targets.len() == n && forall|
            i: int,
        | 0 <= i < n ==> ordered(target_span(#[trigger] targets[i])),
        grammar::targets_of(elements, n) matches Err(e) ==> ordered(e.span),
    decreases n,
{
    if n > 0 {
        lemma_targets(elements, n - 1);
        assert(tidy(elements[n - 1]));
    }
}

proof fn lemma_assignment(ts: Seq<TokenView>, p: int)
    requires
        settled(ts),
    ensures
        grammar::assignment(ts, p).result matches Ok(e) ==> covers(
            e,
            ts,
            p,
            grammar::assignment(ts, p).pos,
        ),
        grammar::assignment(ts, p).result matches Err(e) ==> ordered(e.span),
        grammar::inside(ts, p) ==> p <= grammar::assignment(ts, p).pos < ts.len(),
    decreases ts.len() - p, 30int,
{
    grammar::unfold_assignment(ts, p);
    if grammar::inside(ts, p) {
        lemma_logical(ts, p, LogicalOp::Or);
        let target = grammar::logical(ts, p, LogicalOp::Or);
        match target.result {
            Ok(t) => {
                if grammar::moved(ts, p, target.pos) && grammar::check(
                    ts,
                    target.pos,
                    TokenType::Equal,
                ) {
                    lemma_assignment(ts, target.pos + 1);
                    let value = grammar::assignment(ts, target.pos + 1);
                    match value.result {
                        Ok(v) => {
                            lemma_order(ts, p, value.pos - 1);
                            match t {
                                ExprView::Tuple { elements, .. } => {
                                    lemma_targets(elements, elements.len() as int);
                                },
                                _ => {},
                            }
                        },
                        Err(_) => {},
                    }
                }
            },
            Err(_) => {},
        }
    }
}

proof fn lemma_expression(ts: Seq<TokenView>, p: int)
    requires
        settled(ts),
    ensures
        grammar::expression(ts, p).result matches Ok(e) ==> covers(
            e,
            ts,
            p,
            grammar::expression(ts, p).pos,
        ),
        grammar::expression(ts, p).result matches Err(e) ==> ordered(e.span),
        grammar::inside(ts, p) ==> p <= grammar::expression(ts, p).pos < ts.len(),
    decreases ts.len() - p, 31int,
{
    grammar::unfold_expression(ts, p);
    if grammar::inside(ts, p) {
        lemma_assignment(ts, p);
    }
}

// ---------------------------------------------------------------------------
// Statements
// ---------------------------------------------------------------------------
proof fn lemma_expression_statement(ts: Seq<TokenView>, p: int)
    requires
        settled(ts),
    ensures
        grammar::expression_statement(ts, p).result matches Ok(s) ==> ends_at(
            s,
            ts,
            p,
            grammar::expression_statement(ts, p).pos,
        ),
        grammar::expression_statement(ts, p).result matches Err(e) ==> ordered(e.span),
        grammar::inside(ts, p) ==> p <= grammar::expression_statement(ts, p).pos < ts.len(),
    decreases ts.len() - p, 40int,
{
    grammar::unfold_expression_statement(ts, p);
    if grammar::inside(ts, p) {
        lemma_expression(ts, p);
        let e = grammar::expression(ts, p);
        if e.result is Ok {
            lemma_order(ts, p, e.pos - 1);
            if e.pos < ts.len() {
                lemma_order(ts, p, e.pos);
            }
        }
    }
}

proof fn lemma_statement(ts: Seq<TokenView>, p: int)
    requires
        settled(ts),
    ensures
        grammar::statement(ts, p).result matches Ok(s) ==> ends_at(
            s,
            ts,
            p,
            grammar::statement(ts, p).pos,
        ),
        grammar::statement(ts, p).result matches Err(e) ==> ordered(e.span),
        grammar::inside(ts, p) ==> p <= grammar::statement(ts, p).pos < ts.len(),
    decreases ts.len() - p, 41int,
{
    grammar::unfold_statement(ts, p);
    if grammar::inside(ts, p) {
        if grammar::check(ts, p, TokenType::LeftBrace) {
            if grammar::is_dictionary_literal(ts, p) {
                lemma_expression_statement(ts, p);
            } else {
                lemma_block(ts, p + 1, Seq::empty());
                let body = grammar::block(ts, p + 1, Seq::empty());
                if body.result is Ok {
                    lemma_order(ts, body.pos - 1, body.pos - 1);
                }
            }
        } else if grammar::check(ts, p, TokenType::If) {
            lemma_if_statement(ts, p + 1);
        } else if grammar::check(ts, p, TokenType::While) {
            lemma_while_statement(ts, p + 1);
        } else if grammar::check(ts, p, TokenType::For) {
            lemma_for_statement(ts, p + 1);
        } else {
            lemma_expression_statement(ts, p);
        }
    }
}

proof fn lemma_block(ts: Seq<TokenView>, p: int, found: Seq<StmtView>)
    requires
        settled(ts),
        all_tidy_statements(found),
    ensures
        grammar::block(ts, p, found).result matches Ok(statements) ==> all_tidy_statements(
            statements,
        ) && 0 <= p < grammar::block(ts, p, found).pos < ts.len(),
        grammar::block(ts, p, found).result matches Err(e) ==> ordered(e.span),
        grammar::inside(ts, p) ==> p <= grammar::block(ts, p, found).pos < ts.len(),
    decreases ts.len() - p, 42int,
{
    grammar::unfold_block(ts, p, found);
    if grammar::inside(ts, p) && !grammar::check(ts, p, TokenType::RightBrace) && !grammar::at_end(
        ts,
        p,
    ) {
        lemma_statement(ts, p);
        let s = grammar::statement(ts, p);
        match s.result {
            Ok(stmt) => {
                if grammar::moved(ts, p, s.pos) {
                    assert(all_tidy_statements(found.push(stmt)));
                    lemma_block(ts, s.pos, found.push(stmt));
                }
            },
            Err(_) => {},
        }
    }
}

proof fn lemma_if_statement(ts: Seq<TokenView>, p: int)
    requires
        settled(ts),
        1 <= p,
    ensures
        grammar::if_statement(ts, p).result matches Ok(s) ==> ends_at(
            s,
            ts,
            p - 1,
            grammar::if_statement(ts, p).pos,
        ),
        grammar::if_statement(ts, p).result matches Err(e) ==> ordered(e.span),
        grammar::inside(ts, p) ==> p <= grammar::if_statement(ts, p).pos < ts.len(),
    decreases ts.len() - p, 42int,
{
    grammar::unfold_if_statement(ts, p);
    if grammar::inside(ts, p) && grammar::check(ts, p, TokenType::LeftParen) && grammar::inside(
        ts,
        p + 1,
    ) {
        lemma_expression(ts, p + 1);
        let condition = grammar::expression(ts, p + 1);
        match condition.result {
            Ok(c) => {
                if grammar::moved(ts, p + 1, condition.pos) && grammar::check(
                    ts,
                    condition.pos,
                    TokenType::RightParen,
                ) && grammar::inside(ts, condition.pos + 1) {
                    lemma_if_branches(ts, p - 1, condition.pos + 1, ts[p - 1].span.start, c);
                }
            },
            Err(_) => {},
        }
    }
}

proof fn lemma_if_branches(ts: Seq<TokenView>, from: int, p: int, start: usize, condition: ExprView)
    requires
        settled(ts),
        0 <= from < p,
        from < ts.len(),
        start == ts[from].span.start,
        tidy(condition),
    ensures
        grammar::if_branches(ts, p, start, condition).result matches Ok(s) ==> ends_at(
            s,
            ts,
            from,
            grammar::if_branches(ts, p, start, condition).pos,
        ),
        grammar::if_branches(ts, p, start, condition).result matches Err(e) ==> ordered(e.span),
        grammar::inside(ts, p) ==> p <= grammar::if_branches(ts, p, start, condition).pos < ts.len(),
    decreases ts.len() - p, 42int,
{
    grammar::unfold_if_branches(ts, p, start, condition);
    if grammar::inside(ts, p) {
        lemma_statement(ts, p);
        let then = grammar::statement(ts, p);
        match then.result {
            Ok(t) => {
                if grammar::moved(ts, p, then.pos) {
                    lemma_order(ts, from, then.pos - 1);
                    if grammar::check(ts, then.pos, TokenType::Else) {
                        lemma_statement(ts, then.pos + 1);
                        let other = grammar::statement(ts, then.pos + 1);
                        if other.result is Ok {
                            lemma_order(ts, from, other.pos - 1);
                        }
                    }
                }
            },
            Err(_) => {},
        }
    }
}

proof fn lemma_while_statement(ts: Seq<TokenView>, p: int)
    requires
        settled(ts),
        1 <= p,
    ensures
        grammar::while_statement(ts, p).result matches Ok(s) ==> ends_at(
            s,
            ts,
            p - 1,
            grammar::while_statement(ts, p).pos,
        ),
        grammar::while_statement(ts, p).result matches Err(e) ==> ordered(e.span),
        grammar::inside(ts, p) ==> p <= grammar::while_statement(ts, p).pos < ts.len(),
    decreases ts.len() - p, 42int,
{
    grammar::unfold_while_statement(ts, p);
    if grammar::inside(ts, p) && grammar::check(ts, p, TokenType::LeftParen) && grammar::inside(
        ts,
        p + 1,
    ) {
        lemma_expression(ts, p + 1);
        let condition = grammar::expression(ts, p + 1);
        match condition.result {
            Ok(c) => {
                if grammar::moved(ts, p + 1, condition.pos) && grammar::check(
                    ts,
                    condition.pos,
                    TokenType::RightParen,
                ) && grammar::inside(ts, condition.pos + 1) {
                    lemma_statement(ts, condition.pos + 1);
                    let body = grammar::statement(ts, condition.pos + 1);
                    if body.result is Ok {
                        lemma_order(ts, p - 1, body.pos - 1);
                    }
                }
            },
            Err(_) => {},
        }
    }
}

/// The clauses found so far are tidy, and the statement started at the
/// token with index `from`.
pub open spec fn tidy_clauses(clauses: ForClauses, ts: Seq<TokenView>, from: int) -> bool {
    &&& 0 <= from < ts.len()
    &&& clauses.start == ts[from].span.start
    &&& match clauses.initializer {
        Some(first) => tidy_statement(*first),
        None => true,
    }
    &&& match clauses.condition {
        Some(c) => tidy(c),
        None => true,
    }
    &&& match clauses.increment {
        Some(i) => tidy(i),
        None => true,
    }
}

proof fn lemma_for_statement(ts: Seq<TokenView>, p: int)
    requires
        settled(ts),
        1 <= p,
    ensures
        grammar::for_statement(ts, p).result matches Ok(s) ==> ends_at(
            s,
            ts,
            p - 1,
            grammar::for_statement(ts, p).pos,
        ),
        grammar::for_statement(ts, p).result matches Err(e) ==> ordered(e.span),
        grammar::inside(ts, p) ==> p <= grammar::for_statement(ts, p).pos < ts.len(),
    decreases ts.len() - p, 46int,
{
    grammar::unfold_for_statement(ts, p);
    if grammar::inside(ts, p) && grammar::check(ts, p, TokenType::LeftParen) && grammar::inside(
        ts,
        p + 1,
    ) {
        let clauses = ForClauses {
            start: ts[p - 1].span.start,
            initializer: None,
            condition: None,
            increment: None,
        };
        if grammar::check(ts, p + 1, TokenType::Semicolon) {
            lemma_for_condition(ts, p - 1, p + 2, clauses);
        } else {
            lemma_expression_statement(ts, p + 1);
            let initializer = grammar::expression_statement(ts, p + 1);
            match initializer.result {
                Ok(i) => {
                    if grammar::moved(ts, p + 1, initializer.pos) {
                        lemma_for_condition(
                            ts,
                            p - 1,
                            initializer.pos,
                            ForClauses { initializer: Some(Box::new(i)), ..clauses },
                        );
                    }
                },
                Err(_) => {},
            }
        }
    }
}

proof fn lemma_for_condition(ts: Seq<TokenView>, from: int, p: int, clauses: ForClauses)
    requires
        settled(ts),
        from < p,
        tidy_clauses(clauses, ts, from),
    ensures
        grammar::for_condition(ts, p, clauses).result matches Ok(s) ==> ends_at(
            s,
            ts,
            from,
            grammar::for_condition(ts, p, clauses).pos,
        ),
        grammar::for_condition(ts, p, clauses).result matches Err(e) ==> ordered(e.span),
        grammar::inside(ts, p) ==> p <= grammar::for_condition(ts, p, clauses).pos < ts.len(),
    decreases ts.len() - p, 45int,
{
    grammar::unfold_for_condition(ts, p, clauses);
    if grammar::inside(ts, p) {
        if !grammar::check(ts, p, TokenType::Semicolon) {
            lemma_expression(ts, p);
        }
        let condition = if !grammar::check(ts, p, TokenType::Semicolon) {
            let c = grammar::expression(ts, p);
            match c.result {
                Err(e) => grammar::fail(e, c.pos),
                Ok(e) => grammar::done(Some(e), c.pos),
            }
        } else {
            grammar::done(None, p)
        };
        match condition.result {
            Ok(c) => {
                if p <= condition.pos < ts.len() && grammar::check(
                    ts,
                    condition.pos,
                    TokenType::Semicolon,
                ) {
                    lemma_for_increment(
                        ts,
                        from,
                        condition.pos + 1,
                        ForClauses { condition: c, ..clauses },
                    );
                }
            },
            Err(_) => {},
        }
    }
}

proof fn lemma_for_increment(ts: Seq<TokenView>, from: int, p: int, clauses: ForClauses)
    requires
        settled(ts),
        from < p,
        tidy_clauses(clauses, ts, from),
    ensures
        grammar::for_increment(ts, p, clauses).result matches Ok(s) ==> ends_at(
            s,
            ts,
            from,
            grammar::for_increment(ts, p, clauses).pos,
        ),
        grammar::for_increment(ts, p, clauses).result matches Err(e) ==> ordered(e.span),
        grammar::inside(ts, p) ==> p <= grammar::for_increment(ts, p, clauses).pos < ts.len(),
    decreases ts.len() - p, 44int,
{
    grammar::unfold_for_increment(ts, p, clauses);
    if grammar::inside(ts, p) {
        if !grammar::check(ts, p, TokenType::RightParen) {
            lemma_expression(ts, p);
        }
        let increment = if !grammar::check(ts, p, TokenType::RightParen) {
            let i = grammar::expression(ts, p);
            match i.result {
                Err(e) => grammar::fail(e, i.pos),
                Ok(e) => grammar::done(Some(e), i.pos),
            }
        } else {
            grammar::done(None, p)
        };
        match increment.result {
            Ok(i) => {
                if p <= increment.pos < ts.len() && grammar::check(
                    ts,
                    increment.pos,
                    TokenType::RightParen,
                ) && grammar::inside(ts, increment.pos + 1) {
                    lemma_statement(ts, increment.pos + 1);
                    let body = grammar::statement(ts, increment.pos + 1);
                    if body.result is Ok {
                        lemma_order(ts, from, body.pos - 1);
                    }
                }
            },
            Err(_) => {},
        }
    }
}

proof fn lemma_program(ts: Seq<TokenView>, p: int, found: Seq<StmtView>)
    requires
        settled(ts),
        all_tidy_statements(found),
    ensures
        grammar::program(ts, p, found) matches Ok(statements) ==> all_tidy_statements(statements),
        grammar::program(ts, p, found) matches Err(e) ==> ordered(e.span),
    decreases ts.len() - p,
{
    grammar::unfold_program(ts, p, found);
    if grammar::inside(ts, p) && !grammar::at_end(ts, p) {
        lemma_statement(ts, p);
        let s = grammar::statement(ts, p);
        match s.result {
            Ok(stmt) => {
                if grammar::moved(ts, p, s.pos) {
                    assert(all_tidy_statements(found.push(stmt)));
                    lemma_program(ts, s.pos, found.push(stmt));
                }
            },
            Err(_) => {},
        }
    }
}

/// Every span of a program is in order: where the tokens stand in the
/// order of the source, every statement and every expression of the
/// program has a span that starts no later than it ends, and so has the
/// error where the tokens are no program.
pub proof fn lemma_spans_in_order(ts: Seq<TokenView>)
    requires
        settled(ts),
    ensures
        grammar::parse(ts) matches Ok(statements) ==> all_tidy_statements(statements),
        grammar::parse(ts) matches Err(e) ==> ordered(e.span),
{
    lemma_program(ts, 0, Seq::empty());
}

/// Every span of the program of a source is in order, and so is the span
/// of the error where the source is no program.
pub proof fn lemma_source_spans_in_order(source: Seq<char>)
    requires
        byte_len(source) + 1 < usize::MAX,
    ensures
        program_of(source) matches Ok(statements) ==> all_tidy_statements(statements),
        program_of(source) matches Err(e) ==> ordered(e.span),
{
    lemma_scan_is_in_order(source);
    if scan(source) is Ok {
        lemma_spans_in_order(scan(source)->Ok_0);
    }
}

} // verus!
