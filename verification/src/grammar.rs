//! The grammar of the language, as a function from token sequences to
//! syntax trees. The parser is proved to compute exactly this function.
use crate::ast::{
    expr_span, stmt_span, AssignTargetView, BinaryOp, ExprView, KeywordArgView, LogicalOp,
    StmtView, UnaryOp,
};
use crate::error::{helpful_error, plain_error, ErrorKind, ErrorView, Span};
use crate::lexer::{decimal_value, is_digit, run_end, Run, TokenType, TokenView};
use crate::value::ValueView;
use vstd::prelude::*;

verus! {

/// The outcome of parsing one construct: the tree or the error, and the
/// index of the token at which the parser then stands.
pub struct Parsed<T> {
    pub result: Result<T, ErrorView>,
    pub pos: int,
}

/// A failure at a position.
pub open spec fn fail<T>(e: ErrorView, pos: int) -> Parsed<T> {
    Parsed { result: Err(e), pos }
}

/// A result, and the position after it.
pub open spec fn done<T>(t: T, pos: int) -> Parsed<T> {
    Parsed { result: Ok(t), pos }
}

/// The outcome where the token sequence gives out. It is never reached on
/// a sequence that ends with the end-of-input token.
pub open spec fn halted<T>(pos: int) -> Parsed<T> {
    fail(plain_error(ErrorKind::ParseError, Span { start: 0, end: 0 }, Seq::empty()), pos)
}

/// A position at which a token stands.
pub open spec fn inside(ts: Seq<TokenView>, p: int) -> bool {
    0 <= p < ts.len()
}

/// Whether a sub-parse that began at `p` moved on to `q`, inside the tokens.
pub open spec fn moved(ts: Seq<TokenView>, p: int, q: int) -> bool {
    p < q < ts.len()
}

/// Whether the token at a position is the end of input.
pub open spec fn at_end(ts: Seq<TokenView>, p: int) -> bool {
    ts[p].token_type == TokenType::Eof
}

/// Whether the token at a position is of a kind, and not the end of input.
pub open spec fn check(ts: Seq<TokenView>, p: int, kind: TokenType) -> bool {
    !at_end(ts, p) && ts[p].token_type == kind
}

/// The span from the start of one span to the end of another.
pub open spec fn span_from_to(start: Span, end: Span) -> Span {
    Span { start: start.start, end: end.end }
}

/// The span of one byte at a position.
pub open spec fn single(pos: int) -> Span {
    Span { start: pos as usize, end: (pos + 1) as usize }
}

/// A parse error.
pub open spec fn parse_error(span: Span, message: Seq<char>, help: Option<Seq<char>>) -> ErrorView {
    ErrorView { kind: ErrorKind::ParseError, span, message, help }
}

/// Where a missing token is reported: at the offending token, or, at the
/// end of input, just past the last token before it.
pub open spec fn expected_span(ts: Seq<TokenView>, p: int) -> Span {
    if at_end(ts, p) && p > 0 {
        single(ts[p - 1].span.end as int)
    } else {
        ts[p].span
    }
}

/// Takes the token of the given kind, or fails with the given message.
pub open spec fn consume(
    ts: Seq<TokenView>,
    p: int,
    kind: TokenType,
    message: Seq<char>,
    help: Option<Seq<char>>,
) -> Parsed<TokenView> {
    if check(ts, p, kind) {
        done(ts[p], p + 1)
    } else {
        fail(parse_error(expected_span(ts, p), message, help), p)
    }
}

// ---------------------------------------------------------------------------
// Literals
// ---------------------------------------------------------------------------
/// Whether every character is a decimal digit.
pub open spec fn all_digits(s: Seq<char>) -> bool {
    forall|i: int| 0 <= i < s.len() ==> is_digit(#[trigger] s[i])
}

/// The integer that a text denotes: an optional sign, then at least one
/// decimal digit, within the range of 64-bit signed integers.
pub open spec fn parse_int(s: Seq<char>) -> Option<i64> {
    let signed = s.len() > 0 && (s[0] == '-' || s[0] == '+');
    let digits = if signed {
        s.subrange(1, s.len() as int)
    } else {
        s
    };
    if digits.len() == 0 || !all_digits(digits) {
        None
    } else if s[0] == '-' {
        if decimal_value(digits) <= 0x8000_0000_0000_0000 {
            Some((-decimal_value(digits)) as i64)
        } else {
            None
        }
    } else {
        if decimal_value(digits) <= i64::MAX {
            Some(decimal_value(digits) as i64)
        } else {
            None
        }
    }
}

/// The shape of a floating-point literal: digits, a point, digits.
pub open spec fn is_double_text(s: Seq<char>) -> bool {
    let whole = run_end(s, 0, Run::Digits);
    &&& 0 < whole
    &&& whole + 1 < s.len()
    &&& s[whole] == '.'
    &&& run_end(s, whole + 1, Run::Digits) == s.len()
}

// ---------------------------------------------------------------------------
// Block or dictionary
// ---------------------------------------------------------------------------
/// How far past a `{` the parser looks to tell a dictionary from a block.
pub open spec fn lookahead_window() -> int {
    20
}

/// Looks from `pos` up to `limit` for the first marker outside parentheses
/// and brackets: a colon means dictionary; a semicolon, a closing brace or
/// the end of input means block; so does running out of tokens to look at.
pub open spec fn dictionary_ahead(
    ts: Seq<TokenView>,
    pos: int,
    limit: int,
    parens: int,
    brackets: int,
) -> bool
    decreases limit - pos,
{
    if pos >= limit || pos < 0 {
        false
    } else {
        let kind = ts[pos].token_type;
        let top = parens == 0 && brackets == 0;
        if kind == TokenType::LeftParen {
            dictionary_ahead(ts, pos + 1, limit, parens + 1, brackets)
        } else if kind == TokenType::RightParen {
            dictionary_ahead(ts, pos + 1, limit, parens - 1, brackets)
        } else if kind == TokenType::LeftBracket {
            dictionary_ahead(ts, pos + 1, limit, parens, brackets + 1)
        } else if kind == TokenType::RightBracket {
            dictionary_ahead(ts, pos + 1, limit, parens, brackets - 1)
        } else if kind == TokenType::Colon && top {
            true
        } else if kind == TokenType::Semicolon && top {
            false
        } else if kind == TokenType::RightBrace && top {
            false
        } else if kind == TokenType::Eof {
            false
        } else {
            dictionary_ahead(ts, pos + 1, limit, parens, brackets)
        }
    }
}

/// Whether the `{` at `p` opens a dictionary literal rather than a block.
pub open spec fn is_dictionary_literal(ts: Seq<TokenView>, p: int) -> bool {
    if p + 1 >= ts.len() {
        false
    } else if ts[p + 1].token_type == TokenType::RightBrace {
        true
    } else {
        let limit = if p + 1 + lookahead_window() < ts.len() {
            p + 1 + lookahead_window()
        } else {
            ts.len() as int
        };
        dictionary_ahead(ts, p + 1, limit, 0, 0)
    }
}

// ---------------------------------------------------------------------------
// Operators
// ---------------------------------------------------------------------------
/// The levels of left-associative binary operators, loosest first.
#[derive(Clone, Copy, PartialEq, Eq, Structural)]
pub enum Level {
    Equality,
    Comparison,
    Term,
    Factor,
}

/// The rank of a level: the lower, the tighter its operators bind.
pub open spec fn level_rank(level: Level) -> int {
    match level {
        Level::Factor => 0,
        Level::Term => 1,
        Level::Comparison => 2,
        Level::Equality => 3,
    }
}

/// The binary operator that a token kind stands for at a level.
pub open spec fn operator_at(level: Level, kind: TokenType) -> Option<BinaryOp> {
    match level {
        Level::Equality => if kind == TokenType::BangEqual {
            Some(BinaryOp::NotEqual)
        } else if kind == TokenType::EqualEqual {
            Some(BinaryOp::Equal)
        } else {
            None
        },
        Level::Comparison => if kind == TokenType::Greater {
            Some(BinaryOp::Greater)
        } else if kind == TokenType::GreaterEqual {
            Some(BinaryOp::GreaterEqual)
        } else if kind == TokenType::Less {
            Some(BinaryOp::Less)
        } else if kind == TokenType::LessEqual {
            Some(BinaryOp::LessEqual)
        } else if kind == TokenType::In {
            Some(BinaryOp::In)
        } else {
            None
        },
        Level::Term => if kind == TokenType::Minus {
            Some(BinaryOp::Subtract)
        } else if kind == TokenType::Plus {
            Some(BinaryOp::Add)
        } else {
            None
        },
        Level::Factor => if kind == TokenType::Slash {
            Some(BinaryOp::Divide)
        } else if kind == TokenType::Star {
            Some(BinaryOp::Multiply)
        } else {
            None
        },
    }
}

/// The help for a missing right operand at a level.
pub open spec fn level_help(level: Level) -> Seq<char> {
    match level {
        Level::Equality => "Equality operators like '==' and '!=' require expressions on both sides."@,
        Level::Comparison => "Comparison operators like '>', '<', '>=', '<=' and 'in' require expressions on both sides."@,
        Level::Term => "Arithmetic operators like '+' and '-' require expressions on both sides."@,
        Level::Factor => "Multiplication and division operators require expressions on both sides."@,
    }
}

/// The error for a missing right operand: it names the operator.
pub open spec fn operand_error(level: Level, operator: TokenView) -> ErrorView {
    helpful_error(
        ErrorKind::ParseError,
        operator.span,
        "Expected expression after '"@ + operator.lexeme + "'"@,
        level_help(level),
    )
}

/// The unary operator that a token stands for.
pub open spec fn unary_operator(kind: TokenType) -> Option<UnaryOp> {
    if kind == TokenType::Bang || kind == TokenType::Not {
        Some(UnaryOp::Not)
    } else if kind == TokenType::Minus {
        Some(UnaryOp::Negate)
    } else {
        None
    }
}

/// The token of a logical operator.
pub open spec fn logical_token(op: LogicalOp) -> TokenType {
    match op {
        LogicalOp::And => TokenType::And,
        LogicalOp::Or => TokenType::Or,
    }
}

/// The rank of a logical operator: the lower, the tighter it binds.
pub open spec fn logical_rank(op: LogicalOp) -> int {
    match op {
        LogicalOp::And => 0,
        LogicalOp::Or => 1,
    }
}

// ---------------------------------------------------------------------------
// Help texts
// ---------------------------------------------------------------------------
pub open spec fn call_help() -> Seq<char> {
    "Function calls must be closed with ')' after the arguments. Example: func(arg1, arg2)"@
}

pub open spec fn order_help() -> Seq<char> {
    "All positional arguments must come before keyword arguments. Example: func(pos1, pos2, kw1=val1, kw2=val2)"@
}

pub open spec fn argument_help() -> Seq<char> {
    "Function arguments must be valid expressions separated by commas. Example: func(arg1, arg2)"@
}

/// The hint for a token that cannot start an expression.
pub open spec fn unexpected_help(kind: TokenType) -> Seq<char> {
    if kind == TokenType::RightParen {
        "Found ')' without matching '('. Check for unbalanced parentheses."@
    } else if kind == TokenType::RightBrace {
        "Found '}' without matching '{'. Check for unbalanced braces."@
    } else if kind == TokenType::RightBracket {
        "Found ']' without matching '['. Check for unbalanced brackets."@
    } else if kind == TokenType::Eof {
        "Reached end of input while expecting an expression."@
    } else {
        "Expected a literal value, variable, or parenthesized expression here."@
    }
}

// ---------------------------------------------------------------------------
// Assignment targets
// ---------------------------------------------------------------------------
/// The targets that the first `n` elements of a tuple stand for, or the
/// error for the first element that is no variable.
pub open spec fn targets_of(elements: Seq<ExprView>, n: int) -> Result<
    Seq<AssignTargetView>,
    ErrorView,
>
    decreases n,
{
    if n <= 0 {
        Ok(Seq::empty())
    } else {
        match targets_of(elements, n - 1) {
            Err(e) => Err(e),
            Ok(targets) => match elements[n - 1] {
                ExprView::Variable { name, span } => if name == "_"@ {
                    Ok(targets.push(AssignTargetView::Ignore { span }))
                } else {
                    Ok(targets.push(AssignTargetView::Variable { name, span }))
                },
                other => Err(
                    helpful_error(
                        ErrorKind::ParseError,
                        expr_span(other),
                        "Invalid assignment target in multi-assignment"@,
                        "Multi-assignment targets must be variables or underscores. Example: 'a, b, _ = expr'"@,
                    ),
                ),
            },
        }
    }
}

/// The assignment of `value` to what `target` denotes; `equals` is the
/// span of the `=` and `end` the end of the last token of the value.
pub open spec fn assignment_of(target: ExprView, value: ExprView, equals: Span, end: usize) -> Result<
    ExprView,
    ErrorView,
> {
    match target {
        ExprView::Variable { name, span } => Ok(
            ExprView::Assign {
                name,
                value: Box::new(value),
                span: Span { start: span.start, end },
            },
        ),
        ExprView::Tuple { elements, span } => match targets_of(elements, elements.len() as int) {
            Err(e) => Err(e),
            Ok(targets) => Ok(
                ExprView::MultiAssign {
                    targets,
                    value: Box::new(value),
                    span: Span { start: span.start, end },
                },
            ),
        },
        _ => Err(
            helpful_error(
                ErrorKind::ParseError,
                equals,
                "Invalid assignment target"@,
                "Only variables and tuples can be assigned to. Examples: 'x = 10' or 'a, b = expr'"@,
            ),
        ),
    }
}

// ---------------------------------------------------------------------------
// Expressions and statements
// ---------------------------------------------------------------------------
/// The arguments of a call: positional ones, then keyword ones.
pub struct Arguments {
    pub positional: Seq<ExprView>,
    pub keyword: Seq<KeywordArgView>,
}

/// The call of a callee with its arguments.
pub open spec fn call_of(callee: ExprView, args: Arguments, end: Span) -> ExprView {
    let span = Span { start: expr_span(callee).start, end: end.end };
    if args.keyword.len() == 0 {
        ExprView::Call { callee: Box::new(callee), args: args.positional, span }
    } else {
        ExprView::CallWithKwargs {
            callee: Box::new(callee),
            positional_args: args.positional,
            keyword_args: args.keyword,
            span,
        }
    }
}

/// A literal, a variable, or an expression in parentheses, brackets or
/// braces.
#[verifier::opaque]
pub open spec fn primary(ts: Seq<TokenView>, p: int) -> Parsed<ExprView>
    decreases ts.len() - p, 0int,
{
    if !inside(ts, p) {
        halted(p)
    } else if at_end(ts, p) {
        fail(
            helpful_error(
                ErrorKind::ParseError,
                ts[p].span,
                "Unexpected end of input"@,
                "Expected an expression here. Check for unmatched parentheses, brackets, or incomplete statements."@,
            ),
            p,
        )
    } else {
        let token = ts[p];
        let kind = token.token_type;
        if kind == TokenType::False {
            done(ExprView::Literal { value: ValueView::Bool(false), span: token.span }, p + 1)
        } else if kind == TokenType::True {
            done(ExprView::Literal { value: ValueView::Bool(true), span: token.span }, p + 1)
        } else if kind == TokenType::Nil {
            done(ExprView::Literal { value: ValueView::Nil, span: token.span }, p + 1)
        } else if kind == TokenType::Integer {
            match parse_int(token.lexeme) {
                Some(n) => done(
                    ExprView::Literal { value: ValueView::Int(n), span: token.span },
                    p + 1,
                ),
                None => fail(
                    plain_error(ErrorKind::ParseError, token.span, "Invalid integer"@),
                    p + 1,
                ),
            }
        } else if kind == TokenType::Double {
            if is_double_text(token.lexeme) {
                done(ExprView::DoubleLiteral { text: token.lexeme, span: token.span }, p + 1)
            } else {
                fail(plain_error(ErrorKind::ParseError, token.span, "Invalid double"@), p + 1)
            }
        } else if kind == TokenType::String {
            done(
                ExprView::Literal { value: ValueView::String(token.lexeme), span: token.span },
                p + 1,
            )
        } else if kind == TokenType::Identifier {
            done(ExprView::Variable { name: token.lexeme, span: token.span }, p + 1)
        } else if kind == TokenType::LeftParen {
            if !inside(ts, p + 1) {
                halted(p + 1)
            } else if at_end(ts, p + 1) {
                fail(
                    helpful_error(
                        ErrorKind::ParseError,
                        token.span,
                        "Expected expression after '('"@,
                        "Opening parentheses '(' must contain a valid expression. Example: (x + 1)"@,
                    ),
                    p + 1,
                )
            } else if check(ts, p + 1, TokenType::RightParen) {
                fail(
                    helpful_error(
                        ErrorKind::ParseError,
                        span_from_to(token.span, ts[p + 1].span),
                        "Empty parentheses are not allowed"@,
                        "Parentheses must contain an expression. Use 'nil' for a null value: (nil)"@,
                    ),
                    p + 1,
                )
            } else {
                let inner = expression(ts, p + 1);
                match inner.result {
                    Err(e) => fail(e, inner.pos),
                    Ok(e) => {
                        let close = consume(
                            ts,
                            inner.pos,
                            TokenType::RightParen,
                            "Expected ')' after expression"@,
                            Some(
                                "Every opening parenthesis '(' must have a matching closing parenthesis ')'."@,
                            ),
                        );
                        match close.result {
                            Err(err) => fail(err, close.pos),
                            Ok(end) => done(
                                ExprView::Grouping {
                                    expr: Box::new(e),
                                    span: span_from_to(token.span, end.span),
                                },
                                close.pos,
                            ),
                        }
                    },
                }
            }
        } else if kind == TokenType::LeftBracket {
            list_literal(ts, p + 1, token.span)
        } else if kind == TokenType::LeftBrace {
            dict_literal(ts, p + 1, token.span)
        } else {
            fail(
                helpful_error(
                    ErrorKind::ParseError,
                    token.span,
                    "Expected expression, found '"@ + token.lexeme + "'"@,
                    unexpected_help(kind),
                ),
                p + 1,
            )
        }
    }
}

/// The rest of a list literal, after its `[`.
#[verifier::opaque]
pub open spec fn list_literal(ts: Seq<TokenView>, p: int, start: Span) -> Parsed<ExprView>
    decreases ts.len() - p, 36int,
{
    if !inside(ts, p) {
        halted(p)
    } else {
        let items = if check(ts, p, TokenType::RightBracket) {
            done(Seq::empty(), p)
        } else {
            list_items(ts, p, Seq::empty())
        };
        match items.result {
            Err(e) => fail(e, items.pos),
            Ok(elements) => {
                let close = consume(
                    ts,
                    items.pos,
                    TokenType::RightBracket,
                    "Expected ']' after list elements"@,
                    Some(
                        "List literals must be closed with ']' after the opening '['. Example: [1, 2, 3]"@,
                    ),
                );
                match close.result {
                    Err(e) => fail(e, close.pos),
                    Ok(end) => done(
                        ExprView::List { elements, span: span_from_to(start, end.span) },
                        close.pos,
                    ),
                }
            },
        }
    }
}

/// One or more expressions separated by commas, added to `found`.
#[verifier::opaque]
pub open spec fn list_items(ts: Seq<TokenView>, p: int, found: Seq<ExprView>) -> Parsed<
    Seq<ExprView>,
>
    decreases ts.len() - p, 35int,
{
    if !inside(ts, p) {
        halted(p)
    } else {
        let item = expression(ts, p);
        match item.result {
            Err(e) => fail(e, item.pos),
            Ok(e) => if !moved(ts, p, item.pos) {
                halted(item.pos)
            } else if check(ts, item.pos, TokenType::Comma) {
                list_items(ts, item.pos + 1, found.push(e))
            } else {
                done(found.push(e), item.pos)
            },
        }
    }
}

/// The rest of a dictionary literal, after its `{`.
#[verifier::opaque]
pub open spec fn dict_literal(ts: Seq<TokenView>, p: int, start: Span) -> Parsed<ExprView>
    decreases ts.len() - p, 36int,
{
    if !inside(ts, p) {
        halted(p)
    } else {
        let items = if check(ts, p, TokenType::RightBrace) {
            done(Seq::empty(), p)
        } else {
            dict_items(ts, p, Seq::empty())
        };
        match items.result {
            Err(e) => fail(e, items.pos),
            Ok(pairs) => {
                let close = consume(
                    ts,
                    items.pos,
                    TokenType::RightBrace,
                    "Expected '}' after dictionary pairs"@,
                    Some(
                        "Dictionary literals must be closed with '}' after the opening '{'. Example: {\"key\": \"value\"}"@,
                    ),
                );
                match close.result {
                    Err(e) => fail(e, close.pos),
                    Ok(end) => done(
                        ExprView::Dict { pairs, span: span_from_to(start, end.span) },
                        close.pos,
                    ),
                }
            },
        }
    }
}

/// One or more `key : value` entries separated by commas, added to `found`.
#[verifier::opaque]
pub open spec fn dict_items(
    ts: Seq<TokenView>,
    p: int,
    found: Seq<(ExprView, ExprView)>,
) -> Parsed<Seq<(ExprView, ExprView)>>
    decreases ts.len() - p, 35int,
{
    if !inside(ts, p) {
        halted(p)
    } else {
        let key = expression(ts, p);
        match key.result {
            Err(e) => fail(e, key.pos),
            Ok(k) => if !moved(ts, p, key.pos) {
                halted(key.pos)
            } else {
                let colon = consume(
                    ts,
                    key.pos,
                    TokenType::Colon,
                    "Expected ':' after dictionary key"@,
                    Some(
                        "Dictionary entries require a colon ':' between key and value. Example: {\"key\": \"value\"}"@,
                    ),
                );
                match colon.result {
                    Err(e) => fail(e, colon.pos),
                    Ok(_) => if !inside(ts, colon.pos) {
                        halted(colon.pos)
                    } else {
                        let value = expression(ts, colon.pos);
                        match value.result {
                            Err(e) => fail(e, value.pos),
                            Ok(v) => if !moved(ts, colon.pos, value.pos) {
                                halted(value.pos)
                            } else if check(ts, value.pos, TokenType::Comma) {
                                dict_items(ts, value.pos + 1, found.push((k, v)))
                            } else {
                                done(found.push((k, v)), value.pos)
                            },
                        }
                    },
                }
            },
        }
    }
}

/// The arguments of a call from `p` on, added to `found`. Once a keyword
/// argument was found, a positional one is an error.
#[verifier::opaque]
pub open spec fn call_args(ts: Seq<TokenView>, p: int, found: Arguments) -> Parsed<Arguments>
    decreases ts.len() - p, 35int,
{
    if !inside(ts, p) {
        halted(p)
    } else if at_end(ts, p) {
        fail(
            helpful_error(
                ErrorKind::ParseError,
                expected_span(ts, p),
                "Unexpected end of input in function call"@,
                call_help(),
            ),
            p,
        )
    } else if check(ts, p, TokenType::RightBrace) || check(ts, p, TokenType::RightBracket) {
        fail(
            helpful_error(
                ErrorKind::ParseError,
                ts[p].span,
                "Expected ')' to close function call"@,
                call_help(),
            ),
            p,
        )
    } else if check(ts, p, TokenType::Identifier) && inside(ts, p + 1) && check(
        ts,
        p + 1,
        TokenType::Equal,
    ) {
        if !inside(ts, p + 2) {
            halted(p + 2)
        } else {
            let value = expression(ts, p + 2);
            match value.result {
                Err(_) => fail(
                    helpful_error(
                        ErrorKind::ParseError,
                        ts[value.pos].span,
                        "Invalid expression in keyword argument"@,
                        "Keyword arguments must have valid expressions. Example: func(name=value)"@,
                    ),
                    value.pos,
                ),
                Ok(v) => if !moved(ts, p, value.pos) {
                    halted(value.pos)
                } else {
                    call_args_next(
                        ts,
                        value.pos,
                        Arguments {
                            positional: found.positional,
                            keyword: found.keyword.push(
                                KeywordArgView { name: ts[p].lexeme, value: v, span: ts[p].span },
                            ),
                        },
                    )
                },
            }
        }
    } else if found.keyword.len() > 0 {
        fail(
            helpful_error(
                ErrorKind::ParseError,
                ts[p].span,
                "Positional argument after keyword argument"@,
                order_help(),
            ),
            p,
        )
    } else {
        let value = expression(ts, p);
        match value.result {
            Err(_) => fail(
                helpful_error(
                    ErrorKind::ParseError,
                    ts[value.pos].span,
                    "Invalid expression in function call arguments"@,
                    argument_help(),
                ),
                value.pos,
            ),
            Ok(v) => if !moved(ts, p, value.pos) {
                halted(value.pos)
            } else {
                call_args_next(
                    ts,
                    value.pos,
                    Arguments { positional: found.positional.push(v), keyword: found.keyword },
                )
            },
        }
    }
}

/// After an argument that ended at `q`: a comma and the further
/// arguments, or the end of the list.
#[verifier::opaque]
pub open spec fn call_args_next(ts: Seq<TokenView>, q: int, found: Arguments) -> Parsed<Arguments>
    decreases ts.len() - q, 34int,
{
    if !inside(ts, q) {
        halted(q)
    } else if !check(ts, q, TokenType::Comma) {
        done(found, q)
    } else if !inside(ts, q + 1) {
        halted(q + 1)
    } else if at_end(ts, q + 1) {
        fail(
            helpful_error(
                ErrorKind::ParseError,
                expected_span(ts, q + 1),
                "Unexpected end of input after ',' in function call"@,
                "Function calls must be closed with ')' after the arguments. You have a trailing comma."@,
            ),
            q + 1,
        )
    } else {
        call_args(ts, q + 1, found)
    }
}

/// The rest of a call, after its `(`.
#[verifier::opaque]
pub open spec fn finish_call(ts: Seq<TokenView>, p: int, callee: ExprView) -> Parsed<ExprView>
    decreases ts.len() - p, 36int,
{
    if !inside(ts, p) {
        halted(p)
    } else {
        let none = Arguments { positional: Seq::empty(), keyword: Seq::empty() };
        let args = if check(ts, p, TokenType::RightParen) {
            done(none, p)
        } else {
            call_args(ts, p, none)
        };
        match args.result {
            Err(e) => fail(e, args.pos),
            Ok(found) => {
                let close = consume(
                    ts,
                    args.pos,
                    TokenType::RightParen,
                    "Expected ')' after arguments"@,
                    Some(call_help()),
                );
                match close.result {
                    Err(e) => fail(e, close.pos),
                    Ok(end) => done(call_of(callee, found, end.span), close.pos),
                }
            },
        }
    }
}

/// Calls and property accesses that follow the expression `callee`.
#[verifier::opaque]
pub open spec fn call_rest(ts: Seq<TokenView>, p: int, callee: ExprView) -> Parsed<ExprView>
    decreases ts.len() - p, 1int,
{
    if !inside(ts, p) {
        halted(p)
    } else if check(ts, p, TokenType::LeftParen) {
        let call = finish_call(ts, p + 1, callee);
        match call.result {
            Err(e) => fail(e, call.pos),
            Ok(e) => if !moved(ts, p, call.pos) {
                halted(call.pos)
            } else {
                call_rest(ts, call.pos, e)
            },
        }
    } else if check(ts, p, TokenType::Dot) {
        let name = consume(
            ts,
            p + 1,
            TokenType::Identifier,
            "Expected property name after '.'."@,
            None,
        );
        match name.result {
            Err(e) => fail(e, name.pos),
            Ok(token) => if !moved(ts, p, name.pos) {
                halted(name.pos)
            } else {
                call_rest(
                    ts,
                    name.pos,
                    ExprView::PropertyAccess {
                        object: Box::new(callee),
                        property: token.lexeme,
                        span: Span { start: expr_span(callee).start, end: token.span.end },
                    },
                )
            },
        }
    } else {
        done(callee, p)
    }
}

/// A primary expression with the calls and property accesses after it.
#[verifier::opaque]
pub open spec fn call(ts: Seq<TokenView>, p: int) -> Parsed<ExprView>
    decreases ts.len() - p, 2int,
{
    if !inside(ts, p) {
        halted(p)
    } else {
        let first = primary(ts, p);
        match first.result {
            Err(e) => fail(e, first.pos),
            Ok(e) => if !moved(ts, p, first.pos) {
                halted(first.pos)
            } else {
                call_rest(ts, first.pos, e)
            },
        }
    }
}

/// A chain of prefix operators before a call.
#[verifier::opaque]
pub open spec fn unary(ts: Seq<TokenView>, p: int) -> Parsed<ExprView>
    decreases ts.len() - p, 3int,
{
    if !inside(ts, p) {
        halted(p)
    } else if !at_end(ts, p) && unary_operator(ts[p].token_type) is Some {
        let operand = unary(ts, p + 1);
        match operand.result {
            Err(e) => fail(e, operand.pos),
            Ok(e) => done(
                ExprView::Unary {
                    operator: unary_operator(ts[p].token_type)->0,
                    operand: Box::new(e),
                    span: Span { start: ts[p].span.start, end: expr_span(e).end },
                },
                operand.pos,
            ),
        }
    } else {
        call(ts, p)
    }
}

/// An operand of the operators of a level: an expression of the next
/// tighter level.
#[verifier::opaque]
pub open spec fn operand(ts: Seq<TokenView>, p: int, level: Level) -> Parsed<ExprView>
    decreases ts.len() - p, 4 + 3 * level_rank(level),
{
    if !inside(ts, p) {
        halted(p)
    } else {
        match level {
            Level::Equality => binary(ts, p, Level::Comparison),
            Level::Comparison => binary(ts, p, Level::Term),
            Level::Term => binary(ts, p, Level::Factor),
            Level::Factor => unary(ts, p),
        }
    }
}

/// Operators of a level and their right operands, after the expression
/// `left`; they group to the left.
#[verifier::opaque]
pub open spec fn binary_rest(ts: Seq<TokenView>, p: int, level: Level, left: ExprView) -> Parsed<
    ExprView,
>
    decreases ts.len() - p, 5 + 3 * level_rank(level),
{
    if !inside(ts, p) {
        halted(p)
    } else if !at_end(ts, p) && operator_at(level, ts[p].token_type) is Some {
        let right = operand(ts, p + 1, level);
        match right.result {
            Err(_) => fail(operand_error(level, ts[p]), right.pos),
            Ok(e) => if !moved(ts, p, right.pos) {
                halted(right.pos)
            } else {
                binary_rest(
                    ts,
                    right.pos,
                    level,
                    ExprView::Binary {
                        left: Box::new(left),
                        operator: operator_at(level, ts[p].token_type)->0,
                        right: Box::new(e),
                        span: Span { start: expr_span(left).start, end: expr_span(e).end },
                    },
                )
            },
        }
    } else {
        done(left, p)
    }
}

/// A chain of binary operators of a level.
#[verifier::opaque]
pub open spec fn binary(ts: Seq<TokenView>, p: int, level: Level) -> Parsed<ExprView>
    decreases ts.len() - p, 6 + 3 * level_rank(level),
{
    if !inside(ts, p) {
        halted(p)
    } else {
        let first = operand(ts, p, level);
        match first.result {
            Err(e) => fail(e, first.pos),
            Ok(e) => if !moved(ts, p, first.pos) {
                halted(first.pos)
            } else {
                binary_rest(ts, first.pos, level, e)
            },
        }
    }
}

/// An operand of `and` is an equality; an operand of `or` is a chain of
/// `and`.
#[verifier::opaque]
pub open spec fn logical_operand(ts: Seq<TokenView>, p: int, op: LogicalOp) -> Parsed<ExprView>
    decreases ts.len() - p, 20 + 3 * logical_rank(op),
{
    if !inside(ts, p) {
        halted(p)
    } else {
        match op {
            LogicalOp::And => binary(ts, p, Level::Equality),
            LogicalOp::Or => logical(ts, p, LogicalOp::And),
        }
    }
}

#[verifier::opaque]
pub open spec fn logical_rest(ts: Seq<TokenView>, p: int, op: LogicalOp, left: ExprView) -> Parsed<
    ExprView,
>
    decreases ts.len() - p, 21 + 3 * logical_rank(op),
{
    if !inside(ts, p) {
        halted(p)
    } else if check(ts, p, logical_token(op)) {
        let right = logical_operand(ts, p + 1, op);
        match right.result {
            Err(e) => fail(e, right.pos),
            Ok(e) => if !moved(ts, p, right.pos) {
                halted(right.pos)
            } else {
                logical_rest(
                    ts,
                    right.pos,
                    op,
                    ExprView::Logical {
                        left: Box::new(left),
                        operator: op,
                        right: Box::new(e),
                        span: Span { start: expr_span(left).start, end: expr_span(e).end },
                    },
                )
            },
        }
    } else {
        done(left, p)
    }
}

/// A chain of `and`, or a chain of `or`.
#[verifier::opaque]
pub open spec fn logical(ts: Seq<TokenView>, p: int, op: LogicalOp) -> Parsed<ExprView>
    decreases ts.len() - p, 22 + 3 * logical_rank(op),
{
    if !inside(ts, p) {
        halted(p)
    } else {
        let first = logical_operand(ts, p, op);
        match first.result {
            Err(e) => fail(e, first.pos),
            Ok(e) => if !moved(ts, p, first.pos) {
                halted(first.pos)
            } else {
                logical_rest(ts, first.pos, op, e)
            },
        }
    }
}

/// An assignment, which groups to the right, or an `or` chain.
#[verifier::opaque]
pub open spec fn assignment(ts: Seq<TokenView>, p: int) -> Parsed<ExprView>
    decreases ts.len() - p, 30int,
{
    if !inside(ts, p) {
        halted(p)
    } else {
        let target = logical(ts, p, LogicalOp::Or);
        match target.result {
            Err(e) => fail(e, target.pos),
            Ok(t) => if !moved(ts, p, target.pos) {
                halted(target.pos)
            } else if check(ts, target.pos, TokenType::Equal) {
                let value = assignment(ts, target.pos + 1);
                match value.result {
                    Err(e) => fail(e, value.pos),
                    Ok(v) => match assignment_of(
                        t,
                        v,
                        ts[target.pos].span,
                        ts[value.pos - 1].span.end,
                    ) {
                        Ok(e) => done(e, value.pos),
                        Err(e) => fail(e, value.pos),
                    },
                }
            } else {
                done(t, target.pos)
            },
        }
    }
}

#[verifier::opaque]
pub open spec fn expression(ts: Seq<TokenView>, p: int) -> Parsed<ExprView>
    decreases ts.len() - p, 31int,
{
    if !inside(ts, p) {
        halted(p)
    } else {
        assignment(ts, p)
    }
}

/// An expression as a statement; a semicolon after it is taken if there.
#[verifier::opaque]
pub open spec fn expression_statement(ts: Seq<TokenView>, p: int) -> Parsed<StmtView>
    decreases ts.len() - p, 40int,
{
    if !inside(ts, p) {
        halted(p)
    } else {
        let e = expression(ts, p);
        match e.result {
            Err(err) => fail(err, e.pos),
            Ok(expr) => {
                let end = if check(ts, e.pos, TokenType::Semicolon) {
                    e.pos + 1
                } else {
                    e.pos
                };
                done(
                    StmtView::Expression {
                        expr,
                        span: Span { start: ts[p].span.start, end: ts[end - 1].span.end },
                    },
                    end,
                )
            },
        }
    }
}

#[verifier::opaque]
pub open spec fn statement(ts: Seq<TokenView>, p: int) -> Parsed<StmtView>
    decreases ts.len() - p, 41int,
{
    if !inside(ts, p) {
        halted(p)
    } else if check(ts, p, TokenType::LeftBrace) {
        if is_dictionary_literal(ts, p) {
            expression_statement(ts, p)
        } else {
            let body = block(ts, p + 1, Seq::empty());
            match body.result {
                Err(e) => fail(e, body.pos),
                Ok(statements) => done(
                    StmtView::Block { statements, span: ts[body.pos - 1].span },
                    body.pos,
                ),
            }
        }
    } else if check(ts, p, TokenType::If) {
        if_statement(ts, p + 1)
    } else if check(ts, p, TokenType::While) {
        while_statement(ts, p + 1)
    } else if check(ts, p, TokenType::For) {
        for_statement(ts, p + 1)
    } else {
        expression_statement(ts, p)
    }
}

/// The statements of a block up to its `}`, added to `found`.
#[verifier::opaque]
pub open spec fn block(ts: Seq<TokenView>, p: int, found: Seq<StmtView>) -> Parsed<Seq<StmtView>>
    decreases ts.len() - p, 42int,
{
    if !inside(ts, p) {
        halted(p)
    } else if !check(ts, p, TokenType::RightBrace) && !at_end(ts, p) {
        let s = statement(ts, p);
        match s.result {
            Err(e) => fail(e, s.pos),
            Ok(stmt) => if !moved(ts, p, s.pos) {
                halted(s.pos)
            } else {
                block(ts, s.pos, found.push(stmt))
            },
        }
    } else {
        let close = consume(
            ts,
            p,
            TokenType::RightBrace,
            "Expected '}' after block"@,
            Some("Block statements must be closed with '}' after the opening '{'."@),
        );
        match close.result {
            Err(e) => fail(e, close.pos),
            Ok(_) => done(found, close.pos),
        }
    }
}

/// The rest of an `if` statement, after the keyword.
#[verifier::opaque]
pub open spec fn if_statement(ts: Seq<TokenView>, p: int) -> Parsed<StmtView>
    decreases ts.len() - p, 42int,
{
    if !inside(ts, p) || p < 1 {
        halted(p)
    } else {
        let open = consume(
            ts,
            p,
            TokenType::LeftParen,
            "Expected '(' after 'if'"@,
            Some(
                "If statements require parentheses around the condition: if (condition) { ... }"@,
            ),
        );
        match open.result {
            Err(e) => fail(e, open.pos),
            Ok(_) => if !inside(ts, open.pos) {
                halted(open.pos)
            } else {
                let condition = expression(ts, open.pos);
                match condition.result {
                    Err(e) => fail(e, condition.pos),
                    Ok(c) => if !moved(ts, open.pos, condition.pos) {
                        halted(condition.pos)
                    } else {
                        let close = consume(
                            ts,
                            condition.pos,
                            TokenType::RightParen,
                            "Expected ')' after if condition"@,
                            Some(
                                "If conditions must be enclosed in parentheses: if (condition) { ... }"@,
                            ),
                        );
                        match close.result {
                            Err(e) => fail(e, close.pos),
                            Ok(_) => if !inside(ts, close.pos) {
                                halted(close.pos)
                            } else {
                                if_branches(ts, close.pos, ts[p - 1].span.start, c)
                            },
                        }
                    },
                }
            },
        }
    }
}

/// The branches of an `if` statement, after its condition.
#[verifier::opaque]
pub open spec fn if_branches(ts: Seq<TokenView>, p: int, start: usize, condition: ExprView) -> Parsed<
    StmtView,
>
    decreases ts.len() - p, 42int,
{
    if !inside(ts, p) {
        halted(p)
    } else {
        let then = statement(ts, p);
        match then.result {
            Err(e) => fail(e, then.pos),
            Ok(t) => if !moved(ts, p, then.pos) {
                halted(then.pos)
            } else if check(ts, then.pos, TokenType::Else) {
                let other = statement(ts, then.pos + 1);
                match other.result {
                    Err(e) => fail(e, other.pos),
                    Ok(o) => done(
                        StmtView::If {
                            condition,
                            then_branch: Box::new(t),
                            else_branch: Some(Box::new(o)),
                            span: Span { start, end: stmt_span(o).end },
                        },
                        other.pos,
                    ),
                }
            } else {
                done(
                    StmtView::If {
                        condition,
                        then_branch: Box::new(t),
                        else_branch: None,
                        span: Span { start, end: stmt_span(t).end },
                    },
                    then.pos,
                )
            },
        }
    }
}

/// The rest of a `while` statement, after the keyword.
#[verifier::opaque]
pub open spec fn while_statement(ts: Seq<TokenView>, p: int) -> Parsed<StmtView>
    decreases ts.len() - p, 42int,
{
    if !inside(ts, p) || p < 1 {
        halted(p)
    } else {
        let open = consume(ts, p, TokenType::LeftParen, "Expected '(' after 'while'"@, None);
        match open.result {
            Err(e) => fail(e, open.pos),
            Ok(_) => if !inside(ts, open.pos) {
                halted(open.pos)
            } else {
                let condition = expression(ts, open.pos);
                match condition.result {
                    Err(e) => fail(e, condition.pos),
                    Ok(c) => if !moved(ts, open.pos, condition.pos) {
                        halted(condition.pos)
                    } else {
                        let close = consume(
                            ts,
                            condition.pos,
                            TokenType::RightParen,
                            "Expected ')' after while condition"@,
                            None,
                        );
                        match close.result {
                            Err(e) => fail(e, close.pos),
                            Ok(_) => if !inside(ts, close.pos) {
                                halted(close.pos)
                            } else {
                                let body = statement(ts, close.pos);
                                match body.result {
                                    Err(e) => fail(e, body.pos),
                                    Ok(b) => done(
                                        StmtView::While {
                                            condition: c,
                                            body: Box::new(b),
                                            span: Span {
                                                start: ts[p - 1].span.start,
                                                end: stmt_span(b).end,
                                            },
                                        },
                                        body.pos,
                                    ),
                                }
                            },
                        }
                    },
                }
            },
        }
    }
}

/// The clauses of a `for` statement that were parsed so far.
pub struct ForClauses {
    pub start: usize,
    pub initializer: Option<Box<StmtView>>,
    pub condition: Option<ExprView>,
    pub increment: Option<ExprView>,
}

/// The rest of a `for` statement, after the keyword.
#[verifier::opaque]
pub open spec fn for_statement(ts: Seq<TokenView>, p: int) -> Parsed<StmtView>
    decreases ts.len() - p, 46int,
{
    if !inside(ts, p) || p < 1 {
        halted(p)
    } else {
        let open = consume(ts, p, TokenType::LeftParen, "Expected '(' after 'for'"@, None);
        let clauses = ForClauses {
            start: ts[p - 1].span.start,
            initializer: None,
            condition: None,
            increment: None,
        };
        match open.result {
            Err(e) => fail(e, open.pos),
            Ok(_) => if !inside(ts, open.pos) {
                halted(open.pos)
            } else if check(ts, open.pos, TokenType::Semicolon) {
                for_condition(ts, open.pos + 1, clauses)
            } else {
                let initializer = expression_statement(ts, open.pos);
                match initializer.result {
                    Err(e) => fail(e, initializer.pos),
                    Ok(i) => if !moved(ts, open.pos, initializer.pos) {
                        halted(initializer.pos)
                    } else {
                        for_condition(
                            ts,
                            initializer.pos,
                            ForClauses { initializer: Some(Box::new(i)), ..clauses },
                        )
                    },
                }
            },
        }
    }
}

/// A `for` statement from its condition on.
#[verifier::opaque]
pub open spec fn for_condition(ts: Seq<TokenView>, p: int, clauses: ForClauses) -> Parsed<StmtView>
    decreases ts.len() - p, 45int,
{
    if !inside(ts, p) {
        halted(p)
    } else {
        let condition = if !check(ts, p, TokenType::Semicolon) {
            let c = expression(ts, p);
            match c.result {
                Err(e) => fail(e, c.pos),
                Ok(e) => done(Some(e), c.pos),
            }
        } else {
            done(None, p)
        };
        match condition.result {
            Err(e) => fail(e, condition.pos),
            Ok(c) => if !(p <= condition.pos < ts.len()) {
                halted(condition.pos)
            } else {
                let separator = consume(
                    ts,
                    condition.pos,
                    TokenType::Semicolon,
                    "Expected ';' after loop condition"@,
                    None,
                );
                match separator.result {
                    Err(e) => fail(e, separator.pos),
                    Ok(_) => for_increment(
                        ts,
                        separator.pos,
                        ForClauses { condition: c, ..clauses },
                    ),
                }
            },
        }
    }
}

/// A `for` statement from its increment on.
#[verifier::opaque]
pub open spec fn for_increment(ts: Seq<TokenView>, p: int, clauses: ForClauses) -> Parsed<StmtView>
    decreases ts.len() - p, 44int,
{
    if !inside(ts, p) {
        halted(p)
    } else {
        let increment = if !check(ts, p, TokenType::RightParen) {
            let i = expression(ts, p);
            match i.result {
                Err(e) => fail(e, i.pos),
                Ok(e) => done(Some(e), i.pos),
            }
        } else {
            done(None, p)
        };
        match increment.result {
            Err(e) => fail(e, increment.pos),
            Ok(i) => if !(p <= increment.pos < ts.len()) {
                halted(increment.pos)
            } else {
                let close = consume(
                    ts,
                    increment.pos,
                    TokenType::RightParen,
                    "Expected ')' after for clauses"@,
                    None,
                );
                match close.result {
                    Err(e) => fail(e, close.pos),
                    Ok(_) => if !inside(ts, close.pos) {
                        halted(close.pos)
                    } else {
                        let body = statement(ts, close.pos);
                        match body.result {
                            Err(e) => fail(e, body.pos),
                            Ok(b) => done(
                                StmtView::For {
                                    initializer: clauses.initializer,
                                    condition: clauses.condition,
                                    increment: i,
                                    body: Box::new(b),
                                    span: Span { start: clauses.start, end: stmt_span(b).end },
                                },
                                body.pos,
                            ),
                        }
                    },
                }
            },
        }
    }
}

/// The statements from `p` up to the end of input, added to `found`.
#[verifier::opaque]
pub open spec fn program(ts: Seq<TokenView>, p: int, found: Seq<StmtView>) -> Result<
    Seq<StmtView>,
    ErrorView,
>
    decreases ts.len() - p,
{
    if !inside(ts, p) || at_end(ts, p) {
        Ok(found)
    } else {
        let s = statement(ts, p);
        match s.result {
            Err(e) => Err(e),
            Ok(stmt) => if !moved(ts, p, s.pos) {
                Ok(found)
            } else {
                program(ts, s.pos, found.push(stmt))
            },
        }
    }
}

/// The program that a token sequence denotes, or the first parse error.
pub open spec fn parse(ts: Seq<TokenView>) -> Result<Seq<StmtView>, ErrorView> {
    program(ts, 0, Seq::empty())
}

// ---------------------------------------------------------------------------
// Unfoldings
// ---------------------------------------------------------------------------
/// One step of [`primary`]: its definition, with what it calls taken as a whole.
pub proof fn unfold_primary(ts: Seq<TokenView>, p: int)
    ensures
        primary(ts, p) == (if !inside(ts, p) {
            halted(p)
        } else if at_end(ts, p) {
            fail(
                helpful_error(
                    ErrorKind::ParseError,
                    ts[p].span,
                    "Unexpected end of input"@,
                    "Expected an expression here. Check for unmatched parentheses, brackets, or incomplete statements."@,
                ),
                p,
            )
        } else {
            let token = ts[p];
            let kind = token.token_type;
            if kind == TokenType::False {
                done(ExprView::Literal { value: ValueView::Bool(false), span: token.span }, p + 1)
            } else if kind == TokenType::True {
                done(ExprView::Literal { value: ValueView::Bool(true), span: token.span }, p + 1)
            } else if kind == TokenType::Nil {
                done(ExprView::Literal { value: ValueView::Nil, span: token.span }, p + 1)
            } else if kind == TokenType::Integer {
                match parse_int(token.lexeme) {
                    Some(n) => done(
                        ExprView::Literal { value: ValueView::Int(n), span: token.span },
                        p + 1,
                    ),
                    None => fail(
                        plain_error(ErrorKind::ParseError, token.span, "Invalid integer"@),
                        p + 1,
                    ),
                }
            } else if kind == TokenType::Double {
                if is_double_text(token.lexeme) {
                    done(ExprView::DoubleLiteral { text: token.lexeme, span: token.span }, p + 1)
                } else {
                    fail(plain_error(ErrorKind::ParseError, token.span, "Invalid double"@), p + 1)
                }
            } else if kind == TokenType::String {
                done(
                    ExprView::Literal { value: ValueView::String(token.lexeme), span: token.span },
                    p + 1,
                )
            } else if kind == TokenType::Identifier {
                done(ExprView::Variable { name: token.lexeme, span: token.span }, p + 1)
            } else if kind == TokenType::LeftParen {
                if !inside(ts, p + 1) {
                    halted(p + 1)
                } else if at_end(ts, p + 1) {
                    fail(
                        helpful_error(
                            ErrorKind::ParseError,
                            token.span,
                            "Expected expression after '('"@,
                            "Opening parentheses '(' must contain a valid expression. Example: (x + 1)"@,
                        ),
                        p + 1,
                    )
                } else if check(ts, p + 1, TokenType::RightParen) {
                    fail(
                        helpful_error(
                            ErrorKind::ParseError,
                            span_from_to(token.span, ts[p + 1].span),
                            "Empty parentheses are not allowed"@,
                            "Parentheses must contain an expression. Use 'nil' for a null value: (nil)"@,
                        ),
                        p + 1,
                    )
                } else {
                    let inner = expression(ts, p + 1);
                    match inner.result {
                        Err(e) => fail(e, inner.pos),
                        Ok(e) => {
                            let close = consume(
                                ts,
                                inner.pos,
                                TokenType::RightParen,
                                "Expected ')' after expression"@,
                                Some(
                                    "Every opening parenthesis '(' must have a matching closing parenthesis ')'."@,
                                ),
                            );
                            match close.result {
                                Err(err) => fail(err, close.pos),
                                Ok(end) => done(
                                    ExprView::Grouping {
                                        expr: Box::new(e),
                                        span: span_from_to(token.span, end.span),
                                    },
                                    close.pos,
                                ),
                            }
                        },
                    }
                }
            } else if kind == TokenType::LeftBracket {
                list_literal(ts, p + 1, token.span)
            } else if kind == TokenType::LeftBrace {
                dict_literal(ts, p + 1, token.span)
            } else {
                fail(
                    helpful_error(
                        ErrorKind::ParseError,
                        token.span,
                        "Expected expression, found '"@ + token.lexeme + "'"@,
                        unexpected_help(kind),
                    ),
                    p + 1,
                )
            }
        }),
{
    reveal(primary);
    reveal(list_literal);
    reveal(dict_literal);
    reveal(expression);
}

/// One step of [`list_literal`]: its definition, with what it calls taken as a whole.
pub proof fn unfold_list_literal(ts: Seq<TokenView>, p: int, start: Span)
    ensures
        list_literal(ts, p, start) == (if !inside(ts, p) {
            halted(p)
        } else {
            let items = if check(ts, p, TokenType::RightBracket) {
                done(Seq::empty(), p)
            } else {
                list_items(ts, p, Seq::empty())
            };
            match items.result {
                Err(e) => fail(e, items.pos),
                Ok(elements) => {
                    let close = consume(
                        ts,
                        items.pos,
                        TokenType::RightBracket,
                        "Expected ']' after list elements"@,
                        Some(
                            "List literals must be closed with ']' after the opening '['. Example: [1, 2, 3]"@,
                        ),
                    );
                    match close.result {
                        Err(e) => fail(e, close.pos),
                        Ok(end) => done(
                            ExprView::List { elements, span: span_from_to(start, end.span) },
                            close.pos,
                        ),
                    }
                },
            }
        }),
{
    reveal(list_literal);
    reveal(list_items);
}

/// One step of [`list_items`]: its definition, with what it calls taken as a whole.
pub proof fn unfold_list_items(ts: Seq<TokenView>, p: int, found: Seq<ExprView>)
    ensures
        list_items(ts, p, found) == (if !inside(ts, p) {
            halted(p)
        } else {
            let item = expression(ts, p);
            match item.result {
                Err(e) => fail(e, item.pos),
                Ok(e) => if !moved(ts, p, item.pos) {
                    halted(item.pos)
                } else if check(ts, item.pos, TokenType::Comma) {
                    list_items(ts, item.pos + 1, found.push(e))
                } else {
                    done(found.push(e), item.pos)
                },
            }
        }),
{
    reveal(list_items);
    reveal(expression);
}

/// One step of [`dict_literal`]: its definition, with what it calls taken as a whole.
pub proof fn unfold_dict_literal(ts: Seq<TokenView>, p: int, start: Span)
    ensures
        dict_literal(ts, p, start) == (if !inside(ts, p) {
            halted(p)
        } else {
            let items = if check(ts, p, TokenType::RightBrace) {
                done(Seq::empty(), p)
            } else {
                dict_items(ts, p, Seq::empty())
            };
            match items.result {
                Err(e) => fail(e, items.pos),
                Ok(pairs) => {
                    let close = consume(
                        ts,
                        items.pos,
                        TokenType::RightBrace,
                        "Expected '}' after dictionary pairs"@,
                        Some(
                            "Dictionary literals must be closed with '}' after the opening '{'. Example: {\"key\": \"value\"}"@,
                        ),
                    );
                    match close.result {
                        Err(e) => fail(e, close.pos),
                        Ok(end) => done(
                            ExprView::Dict { pairs, span: span_from_to(start, end.span) },
                            close.pos,
                        ),
                    }
                },
            }
        }),
{
    reveal(dict_literal);
    reveal(dict_items);
}

/// One step of [`dict_items`]: its definition, with what it calls taken as a whole.
pub proof fn unfold_dict_items(ts: Seq<TokenView>,
    p: int,
    found: Seq<(ExprView, ExprView)>)
    ensures
        dict_items(ts, p, found) == (if !inside(ts, p) {
            halted(p)
        } else {
            let key = expression(ts, p);
            match key.result {
                Err(e) => fail(e, key.pos),
                Ok(k) => if !moved(ts, p, key.pos) {
                    halted(key.pos)
                } else {
                    let colon = consume(
                        ts,
                        key.pos,
                        TokenType::Colon,
                        "Expected ':' after dictionary key"@,
                        Some(
                            "Dictionary entries require a colon ':' between key and value. Example: {\"key\": \"value\"}"@,
                        ),
                    );
                    match colon.result {
                        Err(e) => fail(e, colon.pos),
                        Ok(_) => if !inside(ts, colon.pos) {
                            halted(colon.pos)
                        } else {
                            let value = expression(ts, colon.pos);
                            match value.result {
                                Err(e) => fail(e, value.pos),
                                Ok(v) => if !moved(ts, colon.pos, value.pos) {
                                    halted(value.pos)
                                } else if check(ts, value.pos, TokenType::Comma) {
                                    dict_items(ts, value.pos + 1, found.push((k, v)))
                                } else {
                                    done(found.push((k, v)), value.pos)
                                },
                            }
                        },
                    }
                },
            }
        }),
{
    reveal(dict_items);
    reveal(expression);
}

/// One step of [`call_args`]: its definition, with what it calls taken as a whole.
pub proof fn unfold_call_args(ts: Seq<TokenView>, p: int, found: Arguments)
    ensures
        call_args(ts, p, found) == (if !inside(ts, p) {
            halted(p)
        } else if at_end(ts, p) {
            fail(
                helpful_error(
                    ErrorKind::ParseError,
                    expected_span(ts, p),
                    "Unexpected end of input in function call"@,
                    call_help(),
                ),
                p,
            )
        } else if check(ts, p, TokenType::RightBrace) || check(ts, p, TokenType::RightBracket) {
            fail(
                helpful_error(
                    ErrorKind::ParseError,
                    ts[p].span,
                    "Expected ')' to close function call"@,
                    call_help(),
                ),
                p,
            )
        } else if check(ts, p, TokenType::Identifier) && inside(ts, p + 1) && check(
            ts,
            p + 1,
            TokenType::Equal,
        ) {
            if !inside(ts, p + 2) {
                halted(p + 2)
            } else {
                let value = expression(ts, p + 2);
                match value.result {
                    Err(_) => fail(
                        helpful_error(
                            ErrorKind::ParseError,
                            ts[value.pos].span,
                            "Invalid expression in keyword argument"@,
                            "Keyword arguments must have valid expressions. Example: func(name=value)"@,
                        ),
                        value.pos,
                    ),
                    Ok(v) => if !moved(ts, p, value.pos) {
                        halted(value.pos)
                    } else {
                        call_args_next(
                            ts,
                            value.pos,
                            Arguments {
                                positional: found.positional,
                                keyword: found.keyword.push(
                                    KeywordArgView { name: ts[p].lexeme, value: v, span: ts[p].span },
                                ),
                            },
                        )
                    },
                }
            }
        } else if found.keyword.len() > 0 {
            fail(
                helpful_error(
                    ErrorKind::ParseError,
                    ts[p].span,
                    "Positional argument after keyword argument"@,
                    order_help(),
                ),
                p,
            )
        } else {
            let value = expression(ts, p);
            match value.result {
                Err(_) => fail(
                    helpful_error(
                        ErrorKind::ParseError,
                        ts[value.pos].span,
                        "Invalid expression in function call arguments"@,
                        argument_help(),
                    ),
                    value.pos,
                ),
                Ok(v) => if !moved(ts, p, value.pos) {
                    halted(value.pos)
                } else {
                    call_args_next(
                        ts,
                        value.pos,
                        Arguments { positional: found.positional.push(v), keyword: found.keyword },
                    )
                },
            }
        }),
{
    reveal(call_args);
    reveal(call_args_next);
    reveal(expression);
}

/// One step of [`call_args_next`]: its definition, with what it calls taken as a whole.
pub proof fn unfold_call_args_next(ts: Seq<TokenView>, q: int, found: Arguments)
    ensures
        call_args_next(ts, q, found) == (if !inside(ts, q) {
            halted(q)
        } else if !check(ts, q, TokenType::Comma) {
            done(found, q)
        } else if !inside(ts, q + 1) {
            halted(q + 1)
        } else if at_end(ts, q + 1) {
            fail(
                helpful_error(
                    ErrorKind::ParseError,
                    expected_span(ts, q + 1),
                    "Unexpected end of input after ',' in function call"@,
                    "Function calls must be closed with ')' after the arguments. You have a trailing comma."@,
                ),
                q + 1,
            )
        } else {
            call_args(ts, q + 1, found)
        }),
{
    reveal(call_args_next);
    reveal(call_args);
}

/// One step of [`finish_call`]: its definition, with what it calls taken as a whole.
pub proof fn unfold_finish_call(ts: Seq<TokenView>, p: int, callee: ExprView)
    ensures
        finish_call(ts, p, callee) == (if !inside(ts, p) {
            halted(p)
        } else {
            let none = Arguments { positional: Seq::empty(), keyword: Seq::empty() };
            let args = if check(ts, p, TokenType::RightParen) {
                done(none, p)
            } else {
                call_args(ts, p, none)
            };
            match args.result {
                Err(e) => fail(e, args.pos),
                Ok(found) => {
                    let close = consume(
                        ts,
                        args.pos,
                        TokenType::RightParen,
                        "Expected ')' after arguments"@,
                        Some(call_help()),
                    );
                    match close.result {
                        Err(e) => fail(e, close.pos),
                        Ok(end) => done(call_of(callee, found, end.span), close.pos),
                    }
                },
            }
        }),
{
    reveal(finish_call);
    reveal(call_args);
}

/// One step of [`call_rest`]: its definition, with what it calls taken as a whole.
pub proof fn unfold_call_rest(ts: Seq<TokenView>, p: int, callee: ExprView)
    ensures
        call_rest(ts, p, callee) == (if !inside(ts, p) {
            halted(p)
        } else if check(ts, p, TokenType::LeftParen) {
            let call = finish_call(ts, p + 1, callee);
            match call.result {
                Err(e) => fail(e, call.pos),
                Ok(e) => if !moved(ts, p, call.pos) {
                    halted(call.pos)
                } else {
                    call_rest(ts, call.pos, e)
                },
            }
        } else if check(ts, p, TokenType::Dot) {
            let name = consume(
                ts,
                p + 1,
                TokenType::Identifier,
                "Expected property name after '.'."@,
                None,
            );
            match name.result {
                Err(e) => fail(e, name.pos),
                Ok(token) => if !moved(ts, p, name.pos) {
                    halted(name.pos)
                } else {
                    call_rest(
                        ts,
                        name.pos,
                        ExprView::PropertyAccess {
                            object: Box::new(callee),
                            property: token.lexeme,
                            span: Span { start: expr_span(callee).start, end: token.span.end },
                        },
                    )
                },
            }
        } else {
            done(callee, p)
        }),
{
    reveal(call_rest);
    reveal(finish_call);
}

/// One step of [`call`]: its definition, with what it calls taken as a whole.
pub proof fn unfold_call(ts: Seq<TokenView>, p: int)
    ensures
        call(ts, p) == (if !inside(ts, p) {
            halted(p)
        } else {
            let first = primary(ts, p);
            match first.result {
                Err(e) => fail(e, first.pos),
                Ok(e) => if !moved(ts, p, first.pos) {
                    halted(first.pos)
                } else {
                    call_rest(ts, first.pos, e)
                },
            }
        }),
{
    reveal(call);
    reveal(primary);
    reveal(call_rest);
}

/// One step of [`unary`]: its definition, with what it calls taken as a whole.
pub proof fn unfold_unary(ts: Seq<TokenView>, p: int)
    ensures
        unary(ts, p) == (if !inside(ts, p) {
            halted(p)
        } else if !at_end(ts, p) && unary_operator(ts[p].token_type) is Some {
            let operand = unary(ts, p + 1);
            match operand.result {
                Err(e) => fail(e, operand.pos),
                Ok(e) => done(
                    ExprView::Unary {
                        operator: unary_operator(ts[p].token_type)->0,
                        operand: Box::new(e),
                        span: Span { start: ts[p].span.start, end: expr_span(e).end },
                    },
                    operand.pos,
                ),
            }
        } else {
            call(ts, p)
        }),
{
    reveal(unary);
    reveal(call);
}

/// One step of [`operand`]: its definition, with what it calls taken as a whole.
pub proof fn unfold_operand(ts: Seq<TokenView>, p: int, level: Level)
    ensures
        operand(ts, p, level) == (if !inside(ts, p) {
            halted(p)
        } else {
            match level {
                Level::Equality => binary(ts, p, Level::Comparison),
                Level::Comparison => binary(ts, p, Level::Term),
                Level::Term => binary(ts, p, Level::Factor),
                Level::Factor => unary(ts, p),
            }
        }),
{
    reveal(operand);
    reveal(unary);
    reveal(binary);
}

/// One step of [`binary_rest`]: its definition, with what it calls taken as a whole.
pub proof fn unfold_binary_rest(ts: Seq<TokenView>, p: int, level: Level, left: ExprView)
    ensures
        binary_rest(ts, p, level, left) == (if !inside(ts, p) {
            halted(p)
        } else if !at_end(ts, p) && operator_at(level, ts[p].token_type) is Some {
            let right = operand(ts, p + 1, level);
            match right.result {
                Err(_) => fail(operand_error(level, ts[p]), right.pos),
                Ok(e) => if !moved(ts, p, right.pos) {
                    halted(right.pos)
                } else {
                    binary_rest(
                        ts,
                        right.pos,
                        level,
                        ExprView::Binary {
                            left: Box::new(left),
                            operator: operator_at(level, ts[p].token_type)->0,
                            right: Box::new(e),
                            span: Span { start: expr_span(left).start, end: expr_span(e).end },
                        },
                    )
                },
            }
        } else {
            done(left, p)
        }),
{
    reveal(binary_rest);
    reveal(operand);
}

/// One step of [`binary`]: its definition, with what it calls taken as a whole.
pub proof fn unfold_binary(ts: Seq<TokenView>, p: int, level: Level)
    ensures
        binary(ts, p, level) == (if !inside(ts, p) {
            halted(p)
        } else {
            let first = operand(ts, p, level);
            match first.result {
                Err(e) => fail(e, first.pos),
                Ok(e) => if !moved(ts, p, first.pos) {
                    halted(first.pos)
                } else {
                    binary_rest(ts, first.pos, level, e)
                },
            }
        }),
{
    reveal(binary);
    reveal(operand);
    reveal(binary_rest);
}

/// One step of [`logical_operand`]: its definition, with what it calls taken as a whole.
pub proof fn unfold_logical_operand(ts: Seq<TokenView>, p: int, op: LogicalOp)
    ensures
        logical_operand(ts, p, op) == (if !inside(ts, p) {
            halted(p)
        } else {
            match op {
                LogicalOp::And => binary(ts, p, Level::Equality),
                LogicalOp::Or => logical(ts, p, LogicalOp::And),
            }
        }),
{
    reveal(logical_operand);
    reveal(binary);
    reveal(logical);
}

/// One step of [`logical_rest`]: its definition, with what it calls taken as a whole.
pub proof fn unfold_logical_rest(ts: Seq<TokenView>, p: int, op: LogicalOp, left: ExprView)
    ensures
        logical_rest(ts, p, op, left) == (if !inside(ts, p) {
            halted(p)
        } else if check(ts, p, logical_token(op)) {
            let right = logical_operand(ts, p + 1, op);
            match right.result {
                Err(e) => fail(e, right.pos),
                Ok(e) => if !moved(ts, p, right.pos) {
                    halted(right.pos)
                } else {
                    logical_rest(
                        ts,
                        right.pos,
                        op,
                        ExprView::Logical {
                            left: Box::new(left),
                            operator: op,
                            right: Box::new(e),
                            span: Span { start: expr_span(left).start, end: expr_span(e).end },
                        },
                    )
                },
            }
        } else {
            done(left, p)
        }),
{
    reveal(logical_rest);
    reveal(logical_operand);
}

/// One step of [`logical`]: its definition, with what it calls taken as a whole.
pub proof fn unfold_logical(ts: Seq<TokenView>, p: int, op: LogicalOp)
    ensures
        logical(ts, p, op) == (if !inside(ts, p) {
            halted(p)
        } else {
            let first = logical_operand(ts, p, op);
            match first.result {
                Err(e) => fail(e, first.pos),
                Ok(e) => if !moved(ts, p, first.pos) {
                    halted(first.pos)
                } else {
                    logical_rest(ts, first.pos, op, e)
                },
            }
        }),
{
    reveal(logical);
    reveal(logical_operand);
    reveal(logical_rest);
}

/// One step of [`assignment`]: its definition, with what it calls taken as a whole.
pub proof fn unfold_assignment(ts: Seq<TokenView>, p: int)
    ensures
        assignment(ts, p) == (if !inside(ts, p) {
            halted(p)
        } else {
            let target = logical(ts, p, LogicalOp::Or);
            match target.result {
                Err(e) => fail(e, target.pos),
                Ok(t) => if !moved(ts, p, target.pos) {
                    halted(target.pos)
                } else if check(ts, target.pos, TokenType::Equal) {
                    let value = assignment(ts, target.pos + 1);
                    match value.result {
                        Err(e) => fail(e, value.pos),
                        Ok(v) => match assignment_of(
                            t,
                            v,
                            ts[target.pos].span,
                            ts[value.pos - 1].span.end,
                        ) {
                            Ok(e) => done(e, value.pos),
                            Err(e) => fail(e, value.pos),
                        },
                    }
                } else {
                    done(t, target.pos)
                },
            }
        }),
{
    reveal(assignment);
    reveal(logical);
}

/// One step of [`expression`]: its definition, with what it calls taken as a whole.
pub proof fn unfold_expression(ts: Seq<TokenView>, p: int)
    ensures
        expression(ts, p) == (if !inside(ts, p) {
            halted(p)
        } else {
            assignment(ts, p)
        }),
{
    reveal(expression);
    reveal(assignment);
}

/// One step of [`expression_statement`]: its definition, with what it calls taken as a whole.
pub proof fn unfold_expression_statement(ts: Seq<TokenView>, p: int)
    ensures
        expression_statement(ts, p) == (if !inside(ts, p) {
            halted(p)
        } else {
            let e = expression(ts, p);
            match e.result {
                Err(err) => fail(err, e.pos),
                Ok(expr) => {
                    let end = if check(ts, e.pos, TokenType::Semicolon) {
                        e.pos + 1
                    } else {
                        e.pos
                    };
                    done(
                        StmtView::Expression {
                            expr,
                            span: Span { start: ts[p].span.start, end: ts[end - 1].span.end },
                        },
                        end,
                    )
                },
            }
        }),
{
    reveal(expression_statement);
    reveal(expression);
}

/// One step of [`statement`]: its definition, with what it calls taken as a whole.
pub proof fn unfold_statement(ts: Seq<TokenView>, p: int)
    ensures
        statement(ts, p) == (if !inside(ts, p) {
            halted(p)
        } else if check(ts, p, TokenType::LeftBrace) {
            if is_dictionary_literal(ts, p) {
                expression_statement(ts, p)
            } else {
                let body = block(ts, p + 1, Seq::empty());
                match body.result {
                    Err(e) => fail(e, body.pos),
                    Ok(statements) => done(
                        StmtView::Block { statements, span: ts[body.pos - 1].span },
                        body.pos,
                    ),
                }
            }
        } else if check(ts, p, TokenType::If) {
            if_statement(ts, p + 1)
        } else if check(ts, p, TokenType::While) {
            while_statement(ts, p + 1)
        } else if check(ts, p, TokenType::For) {
            for_statement(ts, p + 1)
        } else {
            expression_statement(ts, p)
        }),
{
    reveal(statement);
    reveal(expression_statement);
    reveal(block);
    reveal(if_statement);
    reveal(while_statement);
    reveal(for_statement);
}

/// One step of [`block`]: its definition, with what it calls taken as a whole.
pub proof fn unfold_block(ts: Seq<TokenView>, p: int, found: Seq<StmtView>)
    ensures
        block(ts, p, found) == (if !inside(ts, p) {
            halted(p)
        } else if !check(ts, p, TokenType::RightBrace) && !at_end(ts, p) {
            let s = statement(ts, p);
            match s.result {
                Err(e) => fail(e, s.pos),
                Ok(stmt) => if !moved(ts, p, s.pos) {
                    halted(s.pos)
                } else {
                    block(ts, s.pos, found.push(stmt))
                },
            }
        } else {
            let close = consume(
                ts,
                p,
                TokenType::RightBrace,
                "Expected '}' after block"@,
                Some("Block statements must be closed with '}' after the opening '{'."@),
            );
            match close.result {
                Err(e) => fail(e, close.pos),
                Ok(_) => done(found, close.pos),
            }
        }),
{
    reveal(block);
    reveal(statement);
}

/// One step of [`if_statement`]: its definition, with what it calls taken as a whole.
pub proof fn unfold_if_statement(ts: Seq<TokenView>, p: int)
    ensures
        if_statement(ts, p) == (if !inside(ts, p) || p < 1 {
            halted(p)
        } else {
            let open = consume(
                ts,
                p,
                TokenType::LeftParen,
                "Expected '(' after 'if'"@,
                Some(
                    "If statements require parentheses around the condition: if (condition) { ... }"@,
                ),
            );
            match open.result {
                Err(e) => fail(e, open.pos),
                Ok(_) => if !inside(ts, open.pos) {
                    halted(open.pos)
                } else {
                    let condition = expression(ts, open.pos);
                    match condition.result {
                        Err(e) => fail(e, condition.pos),
                        Ok(c) => if !moved(ts, open.pos, condition.pos) {
                            halted(condition.pos)
                        } else {
                            let close = consume(
                                ts,
                                condition.pos,
                                TokenType::RightParen,
                                "Expected ')' after if condition"@,
                                Some(
                                    "If conditions must be enclosed in parentheses: if (condition) { ... }"@,
                                ),
                            );
                            match close.result {
                                Err(e) => fail(e, close.pos),
                                Ok(_) => if !inside(ts, close.pos) {
                                    halted(close.pos)
                                } else {
                                    if_branches(ts, close.pos, ts[p - 1].span.start, c)
                                },
                            }
                        },
                    }
                },
            }
        }),
{
    reveal(if_statement);
    reveal(expression);
    reveal(if_branches);
}

/// One step of [`if_branches`]: its definition, with what it calls taken as a whole.
pub proof fn unfold_if_branches(ts: Seq<TokenView>, p: int, start: usize, condition: ExprView)
    ensures
        if_branches(ts, p, start, condition) == (if !inside(ts, p) {
            halted(p)
        } else {
            let then = statement(ts, p);
            match then.result {
                Err(e) => fail(e, then.pos),
                Ok(t) => if !moved(ts, p, then.pos) {
                    halted(then.pos)
                } else if check(ts, then.pos, TokenType::Else) {
                    let other = statement(ts, then.pos + 1);
                    match other.result {
                        Err(e) => fail(e, other.pos),
                        Ok(o) => done(
                            StmtView::If {
                                condition,
                                then_branch: Box::new(t),
                                else_branch: Some(Box::new(o)),
                                span: Span { start, end: stmt_span(o).end },
                            },
                            other.pos,
                        ),
                    }
                } else {
                    done(
                        StmtView::If {
                            condition,
                            then_branch: Box::new(t),
                            else_branch: None,
                            span: Span { start, end: stmt_span(t).end },
                        },
                        then.pos,
                    )
                },
            }
        }),
{
    reveal(if_branches);
    reveal(statement);
}

/// One step of [`while_statement`]: its definition, with what it calls taken as a whole.
pub proof fn unfold_while_statement(ts: Seq<TokenView>, p: int)
    ensures
        while_statement(ts, p) == (if !inside(ts, p) || p < 1 {
            halted(p)
        } else {
            let open = consume(ts, p, TokenType::LeftParen, "Expected '(' after 'while'"@, None);
            match open.result {
                Err(e) => fail(e, open.pos),
                Ok(_) => if !inside(ts, open.pos) {
                    halted(open.pos)
                } else {
                    let condition = expression(ts, open.pos);
                    match condition.result {
                        Err(e) => fail(e, condition.pos),
                        Ok(c) => if !moved(ts, open.pos, condition.pos) {
                            halted(condition.pos)
                        } else {
                            let close = consume(
                                ts,
                                condition.pos,
                                TokenType::RightParen,
                                "Expected ')' after while condition"@,
                                None,
                            );
                            match close.result {
                                Err(e) => fail(e, close.pos),
                                Ok(_) => if !inside(ts, close.pos) {
                                    halted(close.pos)
                                } else {
                                    let body = statement(ts, close.pos);
                                    match body.result {
                                        Err(e) => fail(e, body.pos),
                                        Ok(b) => done(
                                            StmtView::While {
                                                condition: c,
                                                body: Box::new(b),
                                                span: Span {
                                                    start: ts[p - 1].span.start,
                                                    end: stmt_span(b).end,
                                                },
                                            },
                                            body.pos,
                                        ),
                                    }
                                },
                            }
                        },
                    }
                },
            }
        }),
{
    reveal(while_statement);
    reveal(expression);
    reveal(statement);
}

/// One step of [`for_statement`]: its definition, with what it calls taken as a whole.
pub proof fn unfold_for_statement(ts: Seq<TokenView>, p: int)
    ensures
        for_statement(ts, p) == (if !inside(ts, p) || p < 1 {
            halted(p)
        } else {
            let open = consume(ts, p, TokenType::LeftParen, "Expected '(' after 'for'"@, None);
            let clauses = ForClauses {
                start: ts[p - 1].span.start,
                initializer: None,
                condition: None,
                increment: None,
            };
            match open.result {
                Err(e) => fail(e, open.pos),
                Ok(_) => if !inside(ts, open.pos) {
                    halted(open.pos)
                } else if check(ts, open.pos, TokenType::Semicolon) {
                    for_condition(ts, open.pos + 1, clauses)
                } else {
                    let initializer = expression_statement(ts, open.pos);
                    match initializer.result {
                        Err(e) => fail(e, initializer.pos),
                        Ok(i) => if !moved(ts, open.pos, initializer.pos) {
                            halted(initializer.pos)
                        } else {
                            for_condition(
                                ts,
                                initializer.pos,
                                ForClauses { initializer: Some(Box::new(i)), ..clauses },
                            )
                        },
                    }
                },
            }
        }),
{
    reveal(for_statement);
    reveal(expression_statement);
    reveal(for_condition);
}

/// One step of [`for_condition`]: its definition, with what it calls taken as a whole.
pub proof fn unfold_for_condition(ts: Seq<TokenView>, p: int, clauses: ForClauses)
    ensures
        for_condition(ts, p, clauses) == (if !inside(ts, p) {
            halted(p)
        } else {
            let condition = if !check(ts, p, TokenType::Semicolon) {
                let c = expression(ts, p);
                match c.result {
                    Err(e) => fail(e, c.pos),
                    Ok(e) => done(Some(e), c.pos),
                }
            } else {
                done(None, p)
            };
            match condition.result {
                Err(e) => fail(e, condition.pos),
                Ok(c) => if !(p <= condition.pos < ts.len()) {
                    halted(condition.pos)
                } else {
                    let separator = consume(
                        ts,
                        condition.pos,
                        TokenType::Semicolon,
                        "Expected ';' after loop condition"@,
                        None,
                    );
                    match separator.result {
                        Err(e) => fail(e, separator.pos),
                        Ok(_) => for_increment(
                            ts,
                            separator.pos,
                            ForClauses { condition: c, ..clauses },
                        ),
                    }
                },
            }
        }),
{
    reveal(for_condition);
    reveal(expression);
    reveal(for_increment);
}

/// One step of [`for_increment`]: its definition, with what it calls taken as a whole.
pub proof fn unfold_for_increment(ts: Seq<TokenView>, p: int, clauses: ForClauses)
    ensures
        for_increment(ts, p, clauses) == (if !inside(ts, p) {
            halted(p)
        } else {
            let increment = if !check(ts, p, TokenType::RightParen) {
                let i = expression(ts, p);
                match i.result {
                    Err(e) => fail(e, i.pos),
                    Ok(e) => done(Some(e), i.pos),
                }
            } else {
                done(None, p)
            };
            match increment.result {
                Err(e) => fail(e, increment.pos),
                Ok(i) => if !(p <= increment.pos < ts.len()) {
                    halted(increment.pos)
                } else {
                    let close = consume(
                        ts,
                        increment.pos,
                        TokenType::RightParen,
                        "Expected ')' after for clauses"@,
                        None,
                    );
                    match close.result {
                        Err(e) => fail(e, close.pos),
                        Ok(_) => if !inside(ts, close.pos) {
                            halted(close.pos)
                        } else {
                            let body = statement(ts, close.pos);
                            match body.result {
                                Err(e) => fail(e, body.pos),
                                Ok(b) => done(
                                    StmtView::For {
                                        initializer: clauses.initializer,
                                        condition: clauses.condition,
                                        increment: i,
                                        body: Box::new(b),
                                        span: Span { start: clauses.start, end: stmt_span(b).end },
                                    },
                                    body.pos,
                                ),
                            }
                        },
                    }
                },
            }
        }),
{
    reveal(for_increment);
    reveal(expression);
    reveal(statement);
}

/// One step of [`program`]: its definition, with what it calls taken as a whole.
pub proof fn unfold_program(ts: Seq<TokenView>, p: int, found: Seq<StmtView>)
    ensures
        program(ts, p, found) == (if !inside(ts, p) || at_end(ts, p) {
            Ok(found)
        } else {
            let s = statement(ts, p);
            match s.result {
                Err(e) => Err(e),
                Ok(stmt) => if !moved(ts, p, s.pos) {
                    Ok(found)
                } else {
                    program(ts, s.pos, found.push(stmt))
                },
            }
        }),
{
    reveal(program);
    reveal(statement);
}

} // verus!
