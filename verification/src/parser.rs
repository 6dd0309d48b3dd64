//! The parser: from tokens to syntax trees, by recursive descent.
//!
//! Each function is proved to give what the grammar gives, and to leave
//! the parser at the token at which the grammar stands.
use crate::ast::{
    expr_view, expr_views, group_ast_views, keyword_views, pair_views, stmt_views, target_views, AssignTarget,
    BinaryOp, Expr, ExprView, KeywordArg, LogicalOp, Program, Stmt, StmtView, UnaryOp,
};
use crate::error::{BccError, ErrorView, Span};
use crate::grammar;
use crate::grammar::{Arguments, ForClauses, Level, Parsed};
use crate::lexer::{
    digits_value, is_digit, lemma_run_end_bounds, run_end, token_views, well_formed_tokens, Run, Token,
    TokenType, TokenView,
};
use crate::text::{chars_of, concat3, owned};
use crate::value::Value;
use vstd::prelude::*;
use vstd::string::*;

verus! {

broadcast use group_ast_views;

// ---------------------------------------------------------------------------
// Literals
// ---------------------------------------------------------------------------
/// The index at which the run of digits that starts at `from` ends.
fn digits_end(chars: &Vec<char>, from: usize) -> (end: usize)
    requires
        from <= chars.len(),
    ensures
        end == run_end(chars@, from as int, Run::Digits),
        from <= end <= chars.len(),
{
    let mut k: usize = from;
    while k < chars.len() && '0' <= chars[k] && chars[k] <= '9'
        invariant
            from <= k <= chars.len(),
            run_end(chars@, k as int, Run::Digits) == run_end(chars@, from as int, Run::Digits),
        decreases chars.len() - k,
    {
        k += 1;
    }
    k
}

/// The integer that a text denotes, if any.
pub fn parse_integer(text: &str) -> (value: Option<i64>)
    ensures
        value == grammar::parse_int(text@),
{
    let chars = chars_of(text);
    let negative = chars.len() > 0 && chars[0] == '-';
    let signed = chars.len() > 0 && (chars[0] == '-' || chars[0] == '+');
    let from: usize = if signed {
        1
    } else {
        0
    };
    let ghost digits = chars@.subrange(from as int, chars.len() as int);
    assert(!signed ==> digits =~= chars@);
    if from == chars.len() {
        return None;
    }
    let end = digits_end(&chars, from);
    proof {
        lemma_run_end_bounds(chars@, from as int, Run::Digits);
    }
    if end != chars.len() {
        assert(!is_digit(digits[end - from]));
        return None;
    }
    assert(grammar::all_digits(digits)) by {
        assert forall|i: int| 0 <= i < digits.len() implies is_digit(#[trigger] digits[i]) by {
            assert(digits[i] == chars@[from + i]);
        }
    }
    if negative {
        match digits_value(&chars, from, chars.len(), 0x8000_0000_0000_0000) {
            Some(magnitude) => {
                if magnitude == 0x8000_0000_0000_0000 {
                    Some(i64::MIN)
                } else {
                    Some(-(magnitude as i64))
                }
            },
            None => None,
        }
    } else {
        match digits_value(&chars, from, chars.len(), 0x7fff_ffff_ffff_ffff) {
            Some(magnitude) => Some(magnitude as i64),
            None => None,
        }
    }
}

/// Whether a text has the shape of a floating-point literal.
pub fn looks_like_double(text: &str) -> (b: bool)
    ensures
        b == grammar::is_double_text(text@),
{
    let chars = chars_of(text);
    let whole = digits_end(&chars, 0);
    if whole == 0 || chars.len() - whole <= 1 || chars[whole] != '.' {
        return false;
    }
    let end = digits_end(&chars, whole + 1);
    end == chars.len()
}

// ---------------------------------------------------------------------------
// Texts
// ---------------------------------------------------------------------------
fn level_help_text(level: Level) -> (help: String)
    ensures
        help@ == grammar::level_help(level),
{
    match level {
        Level::Equality => owned(
            "Equality operators like '==' and '!=' require expressions on both sides.",
        ),
        Level::Comparison => owned(
            "Comparison operators like '>', '<', '>=', '<=' and 'in' require expressions on both sides.",
        ),
        Level::Term => owned(
            "Arithmetic operators like '+' and '-' require expressions on both sides.",
        ),
        Level::Factor => owned(
            "Multiplication and division operators require expressions on both sides.",
        ),
    }
}

fn call_help_text() -> (help: String)
    ensures
        help@ == grammar::call_help(),
{
    owned("Function calls must be closed with ')' after the arguments. Example: func(arg1, arg2)")
}

fn order_help_text() -> (help: String)
    ensures
        help@ == grammar::order_help(),
{
    owned(
        "All positional arguments must come before keyword arguments. Example: func(pos1, pos2, kw1=val1, kw2=val2)",
    )
}

fn argument_help_text() -> (help: String)
    ensures
        help@ == grammar::argument_help(),
{
    owned(
        "Function arguments must be valid expressions separated by commas. Example: func(arg1, arg2)",
    )
}

fn unexpected_help_text(kind: TokenType) -> (help: String)
    ensures
        help@ == grammar::unexpected_help(kind),
{
    match kind {
        TokenType::RightParen => owned(
            "Found ')' without matching '('. Check for unbalanced parentheses.",
        ),
        TokenType::RightBrace => owned(
            "Found '}' without matching '{'. Check for unbalanced braces.",
        ),
        TokenType::RightBracket => owned(
            "Found ']' without matching '['. Check for unbalanced brackets.",
        ),
        TokenType::Eof => owned("Reached end of input while expecting an expression."),
        _ => owned("Expected a literal value, variable, or parenthesized expression here."),
    }
}

fn operator_of(level: Level, kind: TokenType) -> (op: Option<BinaryOp>)
    ensures
        op == grammar::operator_at(level, kind),
{
    match level {
        Level::Equality => match kind {
            TokenType::BangEqual => Some(BinaryOp::NotEqual),
            TokenType::EqualEqual => Some(BinaryOp::Equal),
            _ => None,
        },
        Level::Comparison => match kind {
            TokenType::Greater => Some(BinaryOp::Greater),
            TokenType::GreaterEqual => Some(BinaryOp::GreaterEqual),
            TokenType::Less => Some(BinaryOp::Less),
            TokenType::LessEqual => Some(BinaryOp::LessEqual),
            TokenType::In => Some(BinaryOp::In),
            _ => None,
        },
        Level::Term => match kind {
            TokenType::Minus => Some(BinaryOp::Subtract),
            TokenType::Plus => Some(BinaryOp::Add),
            _ => None,
        },
        Level::Factor => match kind {
            TokenType::Slash => Some(BinaryOp::Divide),
            TokenType::Star => Some(BinaryOp::Multiply),
            _ => None,
        },
    }
}

fn unary_operator_of(kind: TokenType) -> (op: Option<UnaryOp>)
    ensures
        op == grammar::unary_operator(kind),
{
    match kind {
        TokenType::Bang => Some(UnaryOp::Not),
        TokenType::Not => Some(UnaryOp::Not),
        TokenType::Minus => Some(UnaryOp::Negate),
        _ => None,
    }
}

fn logical_token_of(op: LogicalOp) -> (kind: TokenType)
    ensures
        kind == grammar::logical_token(op),
{
    match op {
        LogicalOp::And => TokenType::And,
        LogicalOp::Or => TokenType::Or,
    }
}

/// Whether the parser's outcome is the one that the grammar gives.
pub open spec fn agrees<T: View>(result: Result<T, BccError>, pos: usize, spec: Parsed<T::V>) -> bool {
    &&& spec.pos == pos
    &&& match result {
        Ok(t) => spec.result == Ok::<T::V, ErrorView>(t@),
        Err(e) => spec.result == Err::<T::V, ErrorView>(e@),
    }
}

/// Once an element is no variable, the error stays.
proof fn lemma_targets_error_stays(elements: Seq<ExprView>, n: int, m: int)
    requires
        0 <= n <= m,
        grammar::targets_of(elements, n) is Err,
    ensures
        grammar::targets_of(elements, m) == grammar::targets_of(elements, n),
    decreases m - n,
{
    if n < m {
        lemma_targets_error_stays(elements, n, m - 1);
    }
}

/// The targets of a multi-assignment, from the elements of a tuple.
fn targets_from(elements: &Vec<Expr>) -> (result: Result<Vec<AssignTarget>, BccError>)
    ensures
        match result {
            Ok(targets) => grammar::targets_of(expr_views(elements@), elements.len() as int) == Ok::<
                Seq<crate::ast::AssignTargetView>,
                ErrorView,
            >(target_views(targets@)),
            Err(e) => grammar::targets_of(expr_views(elements@), elements.len() as int) == Err::<
                Seq<crate::ast::AssignTargetView>,
                ErrorView,
            >(e@),
        },
{
    reveal(expr_view);
    let mut targets: Vec<AssignTarget> = Vec::new();
    let mut i: usize = 0;
    assert(target_views(targets@) =~= Seq::empty());
    while i < elements.len()
        invariant
            i <= elements.len(),
            grammar::targets_of(expr_views(elements@), i as int) == Ok::<
                Seq<crate::ast::AssignTargetView>,
                ErrorView,
            >(target_views(targets@)),
        decreases elements.len() - i,
    {
        reveal(expr_view);
        let ghost before = targets@;
        assert(expr_views(elements@)[i as int] == elements@[i as int]@);
        match &elements[i] {
            Expr::Variable { name, span } => {
                let chars = chars_of(name.as_str());
                proof {
                    reveal_strlit("_");
                }
                if chars.len() == 1 && chars[0] == '_' {
                    assert(name@ =~= "_"@);
                    targets.push(AssignTarget::Ignore { span: *span });
                } else {
                    targets.push(AssignTarget::Variable { name: name.clone(), span: *span });
                }
                assert(target_views(targets@) =~= target_views(before).push(targets@.last()@));
            },
            other => {
                proof {
                    lemma_targets_error_stays(
                        expr_views(elements@),
                        i + 1,
                        elements.len() as int,
                    );
                }
                return Err(
                    BccError::parse_error_with_help(
                        other.span(),
                        owned("Invalid assignment target in multi-assignment"),
                        owned(
                            "Multi-assignment targets must be variables or underscores. Example: 'a, b, _ = expr'",
                        ),
                    ),
                );
            },
        }
        i += 1;
    }
    Ok(targets)
}

/// The assignment of `value` to what `target` denotes.
fn assignment_from(target: Expr, value: Expr, equals: Span, end: usize) -> (result: Result<
    Expr,
    BccError,
>)
    ensures
        match result {
            Ok(e) => grammar::assignment_of(target@, value@, equals, end) == Ok::<
                ExprView,
                ErrorView,
            >(e@),
            Err(e) => grammar::assignment_of(target@, value@, equals, end) == Err::<
                ExprView,
                ErrorView,
            >(e@),
        },
{
    reveal(expr_view);
    match target {
        Expr::Variable { name, span } => Ok(
            Expr::Assign { name, value: Box::new(value), span: Span::new(span.start, end) },
        ),
        Expr::Tuple { elements, span } => {
            match targets_from(&elements) {
                Ok(targets) => Ok(
                    Expr::MultiAssign {
                        targets,
                        value: Box::new(value),
                        span: Span::new(span.start, end),
                    },
                ),
                Err(e) => Err(e),
            }
        },
        _ => Err(
            BccError::parse_error_with_help(
                equals,
                owned("Invalid assignment target"),
                owned(
                    "Only variables and tuples can be assigned to. Examples: 'x = 10' or 'a, b = expr'",
                ),
            ),
        ),
    }
}

spec fn boxed_stmt_view(s: Option<Box<Stmt>>) -> Option<Box<StmtView>> {
    match s {
        Some(s) => Some(Box::new((*s)@)),
        None => None,
    }
}

spec fn optional_expr_view(e: Option<Expr>) -> Option<ExprView> {
    match e {
        Some(e) => Some(e@),
        None => None,
    }
}

spec fn no_arguments() -> Arguments {
    Arguments { positional: Seq::empty(), keyword: Seq::empty() }
}

/// The contents of the parser's tokens.
#[verifier::opaque]
spec fn views_of(tokens: Vec<Token>) -> Seq<TokenView> {
    token_views(tokens@)
}

/// A recursive-descent parser over a token sequence.
pub struct Parser {
    tokens: Vec<Token>,
    current: usize,
}

impl Parser {
    /// The tokens that this parser reads.
    pub closed spec fn tokens_view(&self) -> Seq<TokenView> {
        token_views(self.tokens@)
    }

    /// The index of the token at which the parser stands.
    pub closed spec fn position(&self) -> int {
        self.current as int
    }

    spec fn ts(&self) -> Seq<TokenView> {
        views_of(self.tokens)
    }

    spec fn inv(&self) -> bool {
        &&& well_formed_tokens(self.ts())
        &&& self.ts().len() == self.tokens.len()
        &&& self.current < self.tokens.len()
    }

    /// The state after parsing from the state `before`; `advanced` says
    /// that at least one token was taken.
    spec fn after(&self, before: &Parser, advanced: bool) -> bool {
        &&& self.inv()
        &&& self.tokens == before.tokens
        &&& before.current <= self.current
        &&& advanced ==> before.current < self.current
    }

    pub fn new(tokens: Vec<Token>) -> (parser: Parser)
        ensures
            parser.tokens_view() == token_views(tokens@),
            parser.position() == 0,
    {
        Parser { tokens, current: 0 }
    }

    /// Parses the statements from the current position to the end of
    /// input: the program that the grammar gives, or its first error.
    pub fn parse(&mut self) -> (result: Result<Program, BccError>)
        requires
            well_formed_tokens(old(self).tokens_view()),
            0 <= old(self).position() < old(self).tokens_view().len(),
        ensures
            final(self).tokens_view() == old(self).tokens_view(),
            match result {
                Ok(program) => grammar::program(
                    old(self).tokens_view(),
                    old(self).position(),
                    Seq::empty(),
                ) == Ok::<Seq<StmtView>, ErrorView>(program@),
                Err(e) => grammar::program(
                    old(self).tokens_view(),
                    old(self).position(),
                    Seq::empty(),
                ) == Err::<Seq<StmtView>, ErrorView>(e@),
            },
    {
        reveal(grammar::program);
        reveal(grammar::statement);
        reveal(views_of);
        let mut statements: Vec<Stmt> = Vec::new();
        assert(stmt_views(statements@) =~= Seq::empty());
        while !self.is_at_end()
            invariant
                self.after(old(self), false),
                grammar::program(old(self).ts(), old(self).current as int, Seq::empty())
                    == grammar::program(self.ts(), self.current as int, stmt_views(statements@)),
            decreases self.tokens.len() - self.current,
        {
            reveal(grammar::program);
            reveal(grammar::statement);
            reveal(views_of);
            let ghost before = statements@;
            match self.declaration() {
                Ok(s) => {
                    statements.push(s);
                    assert(stmt_views(statements@) =~= stmt_views(before).push(s@));
                },
                Err(e) => {
                    return Err(e);
                },
            }
        }
        Ok(Program { statements })
    }

    fn declaration(&mut self) -> (result: Result<Stmt, BccError>)
        requires
            old(self).inv(),
        ensures
            final(self).after(old(self), result is Ok),
            agrees(
                result,
                final(self).current,
                grammar::statement(old(self).ts(), old(self).current as int),
            ),
        decreases old(self).tokens.len() - old(self).current, 92int,
    {
        self.statement()
    }

    fn statement(&mut self) -> (result: Result<Stmt, BccError>)
        requires
            old(self).inv(),
        ensures
            final(self).after(old(self), result is Ok),
            agrees(
                result,
                final(self).current,
                grammar::statement(old(self).ts(), old(self).current as int),
            ),
        decreases old(self).tokens.len() - old(self).current, 91int,
    {
        reveal(grammar::statement);
        reveal(grammar::expression_statement);
        reveal(grammar::block);
        reveal(grammar::if_statement);
        reveal(grammar::while_statement);
        reveal(grammar::for_statement);
        if self.check(TokenType::LeftBrace) {
            if self.is_dictionary_literal() {
                self.expression_statement()
            } else {
                self.advance();
                match self.block() {
                    Ok(statements) => Ok(
                        Stmt::Block { statements, span: self.previous_span() },
                    ),
                    Err(e) => Err(e),
                }
            }
        } else if self.match_type(TokenType::If) {
            self.if_statement()
        } else if self.match_type(TokenType::While) {
            self.while_statement()
        } else if self.match_type(TokenType::For) {
            self.for_statement()
        } else {
            self.expression_statement()
        }
    }

    /// The statements of a block, after its `{`, and its `}`.
    fn block(&mut self) -> (result: Result<Vec<Stmt>, BccError>)
        requires
            old(self).inv(),
        ensures
            final(self).after(old(self), result is Ok),
            final(self).current == grammar::block(
                old(self).ts(),
                old(self).current as int,
                Seq::empty(),
            ).pos,
            match result {
                Ok(statements) => grammar::block(
                    old(self).ts(),
                    old(self).current as int,
                    Seq::empty(),
                ).result == Ok::<Seq<StmtView>, ErrorView>(stmt_views(statements@)),
                Err(e) => grammar::block(
                    old(self).ts(),
                    old(self).current as int,
                    Seq::empty(),
                ).result == Err::<Seq<StmtView>, ErrorView>(e@),
            },
        decreases old(self).tokens.len() - old(self).current, 93int,
    {
        reveal(grammar::block);
        reveal(grammar::statement);
        let mut statements: Vec<Stmt> = Vec::new();
        assert(stmt_views(statements@) =~= Seq::empty());
        while !self.check(TokenType::RightBrace) && !self.is_at_end()
            invariant
                self.after(old(self), false),
                grammar::block(old(self).ts(), old(self).current as int, Seq::empty())
                    == grammar::block(self.ts(), self.current as int, stmt_views(statements@)),
            decreases self.tokens.len() - self.current,
        {
            reveal(grammar::block);
            reveal(grammar::statement);
            let ghost before = statements@;
            match self.declaration() {
                Ok(s) => {
                    statements.push(s);
                    assert(stmt_views(statements@) =~= stmt_views(before).push(s@));
                },
                Err(e) => {
                    return Err(e);
                },
            }
        }
        match self.consume_with_help(
            TokenType::RightBrace,
            "Expected '}' after block",
            owned("Block statements must be closed with '}' after the opening '{'."),
        ) {
            Ok(()) => Ok(statements),
            Err(e) => Err(e),
        }
    }

    fn if_statement(&mut self) -> (result: Result<Stmt, BccError>)
        requires
            old(self).inv(),
            old(self).current >= 1,
        ensures
            final(self).after(old(self), result is Ok),
            agrees(
                result,
                final(self).current,
                grammar::if_statement(old(self).ts(), old(self).current as int),
            ),
        decreases old(self).tokens.len() - old(self).current, 93int,
    {
        reveal(grammar::if_statement);
        reveal(grammar::if_branches);
        reveal(grammar::expression);
        reveal(grammar::statement);
        let start = self.previous_span().start;
        match self.consume_with_help(
            TokenType::LeftParen,
            "Expected '(' after 'if'",
            owned("If statements require parentheses around the condition: if (condition) { ... }"),
        ) {
            Ok(()) => {},
            Err(e) => {
                return Err(e);
            },
        }
        let condition = match self.expression() {
            Ok(c) => c,
            Err(e) => {
                return Err(e);
            },
        };
        match self.consume_with_help(
            TokenType::RightParen,
            "Expected ')' after if condition",
            owned("If conditions must be enclosed in parentheses: if (condition) { ... }"),
        ) {
            Ok(()) => {},
            Err(e) => {
                return Err(e);
            },
        }
        let then_branch = match self.statement() {
            Ok(s) => s,
            Err(e) => {
                return Err(e);
            },
        };
        if self.match_type(TokenType::Else) {
            let else_branch = match self.statement() {
                Ok(s) => s,
                Err(e) => {
                    return Err(e);
                },
            };
            let end = else_branch.span().end;
            Ok(
                Stmt::If {
                    condition,
                    then_branch: Box::new(then_branch),
                    else_branch: Some(Box::new(else_branch)),
                    span: Span::new(start, end),
                },
            )
        } else {
            let end = then_branch.span().end;
            Ok(
                Stmt::If {
                    condition,
                    then_branch: Box::new(then_branch),
                    else_branch: None,
                    span: Span::new(start, end),
                },
            )
        }
    }

    fn while_statement(&mut self) -> (result: Result<Stmt, BccError>)
        requires
            old(self).inv(),
            old(self).current >= 1,
        ensures
            final(self).after(old(self), result is Ok),
            agrees(
                result,
                final(self).current,
                grammar::while_statement(old(self).ts(), old(self).current as int),
            ),
        decreases old(self).tokens.len() - old(self).current, 93int,
    {
        reveal(grammar::while_statement);
        reveal(grammar::expression);
        reveal(grammar::statement);
        let start = self.previous_span().start;
        match self.consume(TokenType::LeftParen, "Expected '(' after 'while'") {
            Ok(()) => {},
            Err(e) => {
                return Err(e);
            },
        }
        let condition = match self.expression() {
            Ok(c) => c,
            Err(e) => {
                return Err(e);
            },
        };
        match self.consume(TokenType::RightParen, "Expected ')' after while condition") {
            Ok(()) => {},
            Err(e) => {
                return Err(e);
            },
        }
        let body = match self.statement() {
            Ok(s) => s,
            Err(e) => {
                return Err(e);
            },
        };
        let end = body.span().end;
        Ok(Stmt::While { condition, body: Box::new(body), span: Span::new(start, end) })
    }


    fn for_statement(&mut self) -> (result: Result<Stmt, BccError>)
        requires
            old(self).inv(),
            old(self).current >= 1,
        ensures
            final(self).after(old(self), result is Ok),
            agrees(
                result,
                final(self).current,
                grammar::for_statement(old(self).ts(), old(self).current as int),
            ),
        decreases old(self).tokens.len() - old(self).current, 93int,
    {
        proof {
            grammar::unfold_for_statement(self.ts(), self.current as int);
        }
        let start = self.previous_span().start;
        match self.consume(TokenType::LeftParen, "Expected '(' after 'for'") {
            Ok(()) => {},
            Err(e) => {
                return Err(e);
            },
        }
        let initializer: Option<Box<Stmt>> = if self.match_type(TokenType::Semicolon) {
            None
        } else {
            match self.expression_statement() {
                Ok(s) => Some(Box::new(s)),
                Err(e) => {
                    return Err(e);
                },
            }
        };
        let ghost at_condition = self.current as int;
        let ghost clauses = ForClauses {
            start,
            initializer: boxed_stmt_view(initializer),
            condition: None,
            increment: None,
        };
        assert(grammar::for_statement(old(self).ts(), old(self).current as int)
            == grammar::for_condition(self.ts(), at_condition, clauses));
        proof {
            grammar::unfold_for_condition(self.ts(), at_condition, clauses);
        }
        let condition: Option<Expr> = if !self.check(TokenType::Semicolon) {
            match self.expression() {
                Ok(c) => Some(c),
                Err(e) => {
                    return Err(e);
                },
            }
        } else {
            None
        };
        match self.consume(TokenType::Semicolon, "Expected ';' after loop condition") {
            Ok(()) => {},
            Err(e) => {
                return Err(e);
            },
        }
        let ghost at_increment = self.current as int;
        let ghost clauses2 = ForClauses {
            condition: optional_expr_view(condition),
            ..clauses
        };
        assert(grammar::for_condition(self.ts(), at_condition, clauses)
            == grammar::for_increment(self.ts(), at_increment, clauses2));
        proof {
            grammar::unfold_for_increment(self.ts(), at_increment, clauses2);
        }
        let increment: Option<Expr> = if !self.check(TokenType::RightParen) {
            match self.expression() {
                Ok(i) => Some(i),
                Err(e) => {
                    return Err(e);
                },
            }
        } else {
            None
        };
        match self.consume(TokenType::RightParen, "Expected ')' after for clauses") {
            Ok(()) => {},
            Err(e) => {
                return Err(e);
            },
        }
        let body = match self.statement() {
            Ok(s) => s,
            Err(e) => {
                return Err(e);
            },
        };
        let end = body.span().end;
        Ok(
            Stmt::For {
                initializer,
                condition,
                increment,
                body: Box::new(body),
                span: Span::new(start, end),
            },
        )
    }

    fn expression_statement(&mut self) -> (result: Result<Stmt, BccError>)
        requires
            old(self).inv(),
        ensures
            final(self).after(old(self), result is Ok),
            agrees(
                result,
                final(self).current,
                grammar::expression_statement(old(self).ts(), old(self).current as int),
            ),
        decreases old(self).tokens.len() - old(self).current, 90int,
    {
        reveal(grammar::expression_statement);
        reveal(grammar::expression);
        let start = self.peek_span().start;
        let expr = match self.expression() {
            Ok(e) => e,
            Err(e) => {
                return Err(e);
            },
        };
        if self.check(TokenType::Semicolon) {
            self.advance();
        }
        let end = self.previous_span().end;
        Ok(Stmt::Expression { expr, span: Span::new(start, end) })
    }

    fn expression(&mut self) -> (result: Result<Expr, BccError>)
        requires
            old(self).inv(),
        ensures
            final(self).after(old(self), result is Ok),
            agrees(
                result,
                final(self).current,
                grammar::expression(old(self).ts(), old(self).current as int),
            ),
        decreases old(self).tokens.len() - old(self).current, 71int,
    {
        reveal(grammar::expression);
        reveal(grammar::assignment);
        self.assignment()
    }

    fn assignment(&mut self) -> (result: Result<Expr, BccError>)
        requires
            old(self).inv(),
        ensures
            final(self).after(old(self), result is Ok),
            agrees(
                result,
                final(self).current,
                grammar::assignment(old(self).ts(), old(self).current as int),
            ),
        decreases old(self).tokens.len() - old(self).current, 70int,
    {
        reveal(grammar::assignment);
        reveal(grammar::logical);
        let expr = match self.or() {
            Ok(e) => e,
            Err(e) => {
                return Err(e);
            },
        };
        if self.match_type(TokenType::Equal) {
            let equals = self.previous_span();
            let value = match self.assignment() {
                Ok(v) => v,
                Err(e) => {
                    return Err(e);
                },
            };
            let end = self.previous_span().end;
            return assignment_from(expr, value, equals, end);
        }
        Ok(expr)
    }

    fn or(&mut self) -> (result: Result<Expr, BccError>)
        requires
            old(self).inv(),
        ensures
            final(self).after(old(self), result is Ok),
            agrees(
                result,
                final(self).current,
                grammar::logical(old(self).ts(), old(self).current as int, LogicalOp::Or),
            ),
        decreases old(self).tokens.len() - old(self).current, 63int,
    {
        self.logical(LogicalOp::Or)
    }

    fn and(&mut self) -> (result: Result<Expr, BccError>)
        requires
            old(self).inv(),
        ensures
            final(self).after(old(self), result is Ok),
            agrees(
                result,
                final(self).current,
                grammar::logical(old(self).ts(), old(self).current as int, LogicalOp::And),
            ),
        decreases old(self).tokens.len() - old(self).current, 53int,
    {
        self.logical(LogicalOp::And)
    }

    /// An operand of a chain of `and` or of `or`.
    fn logical_operand(&mut self, op: LogicalOp) -> (result: Result<Expr, BccError>)
        requires
            old(self).inv(),
        ensures
            final(self).after(old(self), result is Ok),
            agrees(
                result,
                final(self).current,
                grammar::logical_operand(old(self).ts(), old(self).current as int, op),
            ),
        decreases old(self).tokens.len() - old(self).current,
            50 + 10 * grammar::logical_rank(op),
    {
        reveal(grammar::logical_operand);
        reveal(grammar::binary);
        reveal(grammar::logical);
        match op {
            LogicalOp::And => self.equality(),
            LogicalOp::Or => self.and(),
        }
    }

    /// A chain of `and` or of `or`, grouped to the left.
    fn logical(&mut self, op: LogicalOp) -> (result: Result<Expr, BccError>)
        requires
            old(self).inv(),
        ensures
            final(self).after(old(self), result is Ok),
            agrees(
                result,
                final(self).current,
                grammar::logical(old(self).ts(), old(self).current as int, op),
            ),
        decreases old(self).tokens.len() - old(self).current,
            52 + 10 * grammar::logical_rank(op),
    {
        reveal(grammar::logical);
        reveal(grammar::logical_rest);
        reveal(grammar::logical_operand);
        let mut expr = match self.logical_operand(op) {
            Ok(e) => e,
            Err(e) => {
                return Err(e);
            },
        };
        while self.match_type(logical_token_of(op))
            invariant
                self.after(old(self), true),
                grammar::logical(old(self).ts(), old(self).current as int, op)
                    == grammar::logical_rest(self.ts(), self.current as int, op, expr@),
            decreases self.tokens.len() - self.current,
        {
            reveal(grammar::logical);
            reveal(grammar::logical_rest);
            reveal(grammar::logical_operand);
            let start = expr.span().start;
            let right = match self.logical_operand(op) {
                Ok(e) => e,
                Err(e) => {
                    return Err(e);
                },
            };
            let end = right.span().end;
            expr = Expr::Logical {
                left: Box::new(expr),
                operator: op,
                right: Box::new(right),
                span: Span::new(start, end),
            };
        }
        Ok(expr)
    }

    fn equality(&mut self) -> (result: Result<Expr, BccError>)
        requires
            old(self).inv(),
        ensures
            final(self).after(old(self), result is Ok),
            agrees(
                result,
                final(self).current,
                grammar::binary(old(self).ts(), old(self).current as int, Level::Equality),
            ),
        decreases old(self).tokens.len() - old(self).current, 43int,
    {
        self.binary(Level::Equality)
    }

    fn comparison(&mut self) -> (result: Result<Expr, BccError>)
        requires
            old(self).inv(),
        ensures
            final(self).after(old(self), result is Ok),
            agrees(
                result,
                final(self).current,
                grammar::binary(old(self).ts(), old(self).current as int, Level::Comparison),
            ),
        decreases old(self).tokens.len() - old(self).current, 33int,
    {
        self.binary(Level::Comparison)
    }

    fn term(&mut self) -> (result: Result<Expr, BccError>)
        requires
            old(self).inv(),
        ensures
            final(self).after(old(self), result is Ok),
            agrees(
                result,
                final(self).current,
                grammar::binary(old(self).ts(), old(self).current as int, Level::Term),
            ),
        decreases old(self).tokens.len() - old(self).current, 23int,
    {
        self.binary(Level::Term)
    }

    fn factor(&mut self) -> (result: Result<Expr, BccError>)
        requires
            old(self).inv(),
        ensures
            final(self).after(old(self), result is Ok),
            agrees(
                result,
                final(self).current,
                grammar::binary(old(self).ts(), old(self).current as int, Level::Factor),
            ),
        decreases old(self).tokens.len() - old(self).current, 13int,
    {
        self.binary(Level::Factor)
    }

    /// An operand of the operators of a level.
    fn operand(&mut self, level: Level) -> (result: Result<Expr, BccError>)
        requires
            old(self).inv(),
        ensures
            final(self).after(old(self), result is Ok),
            agrees(
                result,
                final(self).current,
                grammar::operand(old(self).ts(), old(self).current as int, level),
            ),
        decreases old(self).tokens.len() - old(self).current,
            10 + 10 * grammar::level_rank(level),
    {
        reveal(grammar::operand);
        reveal(grammar::binary);
        reveal(grammar::unary);
        match level {
            Level::Equality => self.comparison(),
            Level::Comparison => self.term(),
            Level::Term => self.factor(),
            Level::Factor => self.unary(),
        }
    }

    /// A chain of binary operators of a level, grouped to the left. A
    /// missing right operand is reported at the operator.
    fn binary(&mut self, level: Level) -> (result: Result<Expr, BccError>)
        requires
            old(self).inv(),
        ensures
            final(self).after(old(self), result is Ok),
            agrees(
                result,
                final(self).current,
                grammar::binary(old(self).ts(), old(self).current as int, level),
            ),
        decreases old(self).tokens.len() - old(self).current,
            12 + 10 * grammar::level_rank(level),
    {
        reveal(grammar::binary);
        reveal(grammar::binary_rest);
        reveal(grammar::operand);
        let mut expr = match self.operand(level) {
            Ok(e) => e,
            Err(e) => {
                return Err(e);
            },
        };
        loop
            invariant
                self.after(old(self), true),
                grammar::binary(old(self).ts(), old(self).current as int, level)
                    == grammar::binary_rest(self.ts(), self.current as int, level, expr@),
            ensures
                self.after(old(self), true),
                grammar::binary(old(self).ts(), old(self).current as int, level) == grammar::done(
                    expr@,
                    self.current as int,
                ),
            decreases self.tokens.len() - self.current,
        {
            reveal(grammar::binary);
            reveal(grammar::binary_rest);
            reveal(grammar::operand);
            if self.is_at_end() {
                break;
            }
            let operator = match operator_of(level, self.peek_kind()) {
                Some(op) => op,
                None => {
                    break;
                },
            };
            let at = self.current;
            self.advance();
            let start = expr.span().start;
            let right = match self.operand(level) {
                Ok(e) => e,
                Err(_) => {
                    let message = concat3(
                        "Expected expression after '",
                        self.lexeme_at(at),
                        "'",
                    );
                    return Err(
                        BccError::parse_error_with_help(
                            self.span_at(at),
                            message,
                            level_help_text(level),
                        ),
                    );
                },
            };
            let end = right.span().end;
            expr = Expr::Binary {
                left: Box::new(expr),
                operator,
                right: Box::new(right),
                span: Span::new(start, end),
            };
        }
        Ok(expr)
    }

    fn unary(&mut self) -> (result: Result<Expr, BccError>)
        requires
            old(self).inv(),
        ensures
            final(self).after(old(self), result is Ok),
            agrees(
                result,
                final(self).current,
                grammar::unary(old(self).ts(), old(self).current as int),
            ),
        decreases old(self).tokens.len() - old(self).current, 3int,
    {
        reveal(grammar::unary);
        reveal(grammar::call);
        if !self.is_at_end() {
            match unary_operator_of(self.peek_kind()) {
                Some(operator) => {
                    let start = self.peek_span().start;
                    self.advance();
                    let right = match self.unary() {
                        Ok(e) => e,
                        Err(e) => {
                            return Err(e);
                        },
                    };
                    let end = right.span().end;
                    return Ok(
                        Expr::Unary {
                            operator,
                            operand: Box::new(right),
                            span: Span::new(start, end),
                        },
                    );
                },
                None => {},
            }
        }
        self.call()
    }


    fn call(&mut self) -> (result: Result<Expr, BccError>)
        requires
            old(self).inv(),
        ensures
            final(self).after(old(self), result is Ok),
            agrees(
                result,
                final(self).current,
                grammar::call(old(self).ts(), old(self).current as int),
            ),
        decreases old(self).tokens.len() - old(self).current, 2int,
    {
        proof {
            grammar::unfold_call(self.ts(), self.current as int);
        }
        let mut expr = match self.primary() {
            Ok(e) => e,
            Err(e) => {
                return Err(e);
            },
        };
        loop
            invariant
                self.after(old(self), true),
                grammar::call(old(self).ts(), old(self).current as int) == grammar::call_rest(
                    self.ts(),
                    self.current as int,
                    expr@,
                ),
            ensures
                self.after(old(self), true),
                grammar::call(old(self).ts(), old(self).current as int) == grammar::done(
                    expr@,
                    self.current as int,
                ),
            decreases self.tokens.len() - self.current,
        {
            proof {
                grammar::unfold_call_rest(self.ts(), self.current as int, expr@);
            }
            if self.match_type(TokenType::LeftParen) {
                expr = match self.finish_call(expr) {
                    Ok(e) => e,
                    Err(e) => {
                        return Err(e);
                    },
                };
            } else if self.match_type(TokenType::Dot) {
                match self.consume(TokenType::Identifier, "Expected property name after '.'.") {
                    Ok(()) => {},
                    Err(e) => {
                        return Err(e);
                    },
                }
                let property = owned(self.lexeme_at(self.current - 1));
                let start = expr.span().start;
                let end = self.previous_span().end;
                expr = Expr::PropertyAccess {
                    object: Box::new(expr),
                    property,
                    span: Span::new(start, end),
                };
            } else {
                break;
            }
        }
        Ok(expr)
    }
    /// The arguments of a call, after its `(`, and its `)`.
    fn finish_call(&mut self, callee: Expr) -> (result: Result<Expr, BccError>)
        requires
            old(self).inv(),
        ensures
            final(self).after(old(self), result is Ok),
            agrees(
                result,
                final(self).current,
                grammar::finish_call(old(self).ts(), old(self).current as int, callee@),
            ),
        decreases old(self).tokens.len() - old(self).current, 80int,
    {
        proof {
            grammar::unfold_finish_call(self.ts(), self.current as int, callee@);
        }
        let start = callee.span().start;
        let (positional_args, keyword_args) = if self.check(TokenType::RightParen) {
            let positional: Vec<Expr> = Vec::new();
            let keyword: Vec<KeywordArg> = Vec::new();
            assert(expr_views(positional@) =~= Seq::empty());
            assert(keyword_views(keyword@) =~= Seq::empty());
            (positional, keyword)
        } else {
            match self.arguments() {
                Ok(found) => found,
                Err(e) => {
                    return Err(e);
                },
            }
        };
        match self.consume_with_help(
            TokenType::RightParen,
            "Expected ')' after arguments",
            call_help_text(),
        ) {
            Ok(()) => {},
            Err(e) => {
                return Err(e);
            },
        }
        let end = self.previous_span().end;
        if keyword_args.len() == 0 {
            Ok(
                Expr::Call {
                    callee: Box::new(callee),
                    args: positional_args,
                    span: Span::new(start, end),
                },
            )
        } else {
            Ok(
                Expr::CallWithKwargs {
                    callee: Box::new(callee),
                    positional_args,
                    keyword_args,
                    span: Span::new(start, end),
                },
            )
        }
    }

    /// One or more arguments separated by commas. An argument written
    /// `name=value` is a keyword argument; after one, a positional
    /// argument is an error.
    fn arguments(&mut self) -> (result: Result<(Vec<Expr>, Vec<KeywordArg>), BccError>)
        requires
            old(self).inv(),
        ensures
            final(self).after(old(self), result is Ok),
            final(self).current == grammar::call_args(
                old(self).ts(),
                old(self).current as int,
                no_arguments(),
            ).pos,
            match result {
                Ok(found) => grammar::call_args(
                    old(self).ts(),
                    old(self).current as int,
                    no_arguments(),
                ).result == Ok::<Arguments, ErrorView>(
                    Arguments {
                        positional: expr_views(found.0@),
                        keyword: keyword_views(found.1@),
                    },
                ),
                Err(e) => grammar::call_args(
                    old(self).ts(),
                    old(self).current as int,
                    no_arguments(),
                ).result == Err::<Arguments, ErrorView>(e@),
            },
        decreases old(self).tokens.len() - old(self).current, 79int,
    {
        let mut positional_args: Vec<Expr> = Vec::new();
        let mut keyword_args: Vec<KeywordArg> = Vec::new();
        assert(expr_views(positional_args@) =~= Seq::empty());
        assert(keyword_views(keyword_args@) =~= Seq::empty());
        loop
            invariant_except_break
                grammar::call_args(old(self).ts(), old(self).current as int, no_arguments())
                    == grammar::call_args(
                    self.ts(),
                    self.current as int,
                    Arguments {
                        positional: expr_views(positional_args@),
                        keyword: keyword_views(keyword_args@),
                    },
                ),
            invariant
                self.after(old(self), false),
            ensures
                self.after(old(self), true),
                grammar::call_args(old(self).ts(), old(self).current as int, no_arguments())
                    == grammar::done(
                    Arguments {
                        positional: expr_views(positional_args@),
                        keyword: keyword_views(keyword_args@),
                    },
                    self.current as int,
                ),
            decreases self.tokens.len() - self.current,
        {
            proof {
                grammar::unfold_call_args(
                    self.ts(),
                    self.current as int,
                    Arguments {
                        positional: expr_views(positional_args@),
                        keyword: keyword_views(keyword_args@),
                    },
                );
            }
            let ghost positional_before = positional_args@;
            let ghost keyword_before = keyword_args@;
            if self.is_at_end() {
                return Err(
                    BccError::parse_error_with_help(
                        self.expected_at(),
                        owned("Unexpected end of input in function call"),
                        call_help_text(),
                    ),
                );
            }
            if self.check(TokenType::RightBrace) || self.check(TokenType::RightBracket) {
                return Err(
                    BccError::parse_error_with_help(
                        self.peek_span(),
                        owned("Expected ')' to close function call"),
                        call_help_text(),
                    ),
                );
            }
            if self.check(TokenType::Identifier) && self.kind_at(self.current + 1)
                == TokenType::Equal {
                let name = owned(self.lexeme_at(self.current));
                let span = self.span_at(self.current);
                self.advance();
                self.advance();
                let value = match self.expression() {
                    Ok(v) => v,
                    Err(_) => {
                        return Err(
                            BccError::parse_error_with_help(
                                self.peek_span(),
                                owned("Invalid expression in keyword argument"),
                                owned(
                                    "Keyword arguments must have valid expressions. Example: func(name=value)",
                                ),
                            ),
                        );
                    },
                };
                keyword_args.push(KeywordArg { name, value, span });
                assert(keyword_views(keyword_args@) =~= keyword_views(keyword_before).push(
                    keyword_args@.last()@,
                ));
            } else {
                if keyword_args.len() > 0 {
                    return Err(
                        BccError::parse_error_with_help(
                            self.peek_span(),
                            owned("Positional argument after keyword argument"),
                            order_help_text(),
                        ),
                    );
                }
                let value = match self.expression() {
                    Ok(v) => v,
                    Err(_) => {
                        return Err(
                            BccError::parse_error_with_help(
                                self.peek_span(),
                                owned("Invalid expression in function call arguments"),
                                argument_help_text(),
                            ),
                        );
                    },
                };
                positional_args.push(value);
                assert(expr_views(positional_args@) =~= expr_views(positional_before).push(
                    positional_args@.last()@,
                ));
            }
            proof {
                grammar::unfold_call_args_next(
                    self.ts(),
                    self.current as int,
                    Arguments {
                        positional: expr_views(positional_args@),
                        keyword: keyword_views(keyword_args@),
                    },
                );
            }
            if !self.match_type(TokenType::Comma) {
                break;
            }
            if self.is_at_end() {
                return Err(
                    BccError::parse_error_with_help(
                        self.expected_at(),
                        owned("Unexpected end of input after ',' in function call"),
                        owned(
                            "Function calls must be closed with ')' after the arguments. You have a trailing comma.",
                        ),
                    ),
                );
            }
        }
        Ok((positional_args, keyword_args))
    }


    fn primary(&mut self) -> (result: Result<Expr, BccError>)
        requires
            old(self).inv(),
        ensures
            final(self).after(old(self), result is Ok),
            agrees(
                result,
                final(self).current,
                grammar::primary(old(self).ts(), old(self).current as int),
            ),
        decreases old(self).tokens.len() - old(self).current, 0int,
    {
        proof {
            grammar::unfold_primary(self.ts(), self.current as int);
        }
        if self.is_at_end() {
            return Err(
                BccError::parse_error_with_help(
                    self.peek_span(),
                    owned("Unexpected end of input"),
                    owned(
                        "Expected an expression here. Check for unmatched parentheses, brackets, or incomplete statements.",
                    ),
                ),
            );
        }
        let at = self.current;
        let kind = self.peek_kind();
        let span = self.peek_span();
        self.advance();
        match kind {
            TokenType::False => Ok(Expr::Literal { value: Value::Bool(false), span }),
            TokenType::True => Ok(Expr::Literal { value: Value::Bool(true), span }),
            TokenType::Nil => Ok(Expr::Literal { value: Value::Nil, span }),
            TokenType::Integer => {
                match parse_integer(self.lexeme_at(at)) {
                    Some(n) => Ok(Expr::Literal { value: Value::Int(n), span }),
                    None => Err(BccError::parse_error(span, owned("Invalid integer"))),
                }
            },
            TokenType::Double => {
                if looks_like_double(self.lexeme_at(at)) {
                    Ok(Expr::DoubleLiteral { text: owned(self.lexeme_at(at)), span })
                } else {
                    Err(BccError::parse_error(span, owned("Invalid double")))
                }
            },
            TokenType::String => Ok(
                Expr::Literal { value: Value::String(owned(self.lexeme_at(at))), span },
            ),
            TokenType::Identifier => Ok(
                Expr::Variable { name: owned(self.lexeme_at(at)), span },
            ),
            TokenType::LeftParen => {
                if self.is_at_end() {
                    return Err(
                        BccError::parse_error_with_help(
                            span,
                            owned("Expected expression after '('"),
                            owned(
                                "Opening parentheses '(' must contain a valid expression. Example: (x + 1)",
                            ),
                        ),
                    );
                }
                if self.check(TokenType::RightParen) {
                    return Err(
                        BccError::parse_error_with_help(
                            Span::new(span.start, self.peek_span().end),
                            owned("Empty parentheses are not allowed"),
                            owned(
                                "Parentheses must contain an expression. Use 'nil' for a null value: (nil)",
                            ),
                        ),
                    );
                }
                let expr = match self.expression() {
                    Ok(e) => e,
                    Err(e) => {
                        return Err(e);
                    },
                };
                match self.consume_with_help(
                    TokenType::RightParen,
                    "Expected ')' after expression",
                    owned(
                        "Every opening parenthesis '(' must have a matching closing parenthesis ')'.",
                    ),
                ) {
                    Ok(()) => {},
                    Err(e) => {
                        return Err(e);
                    },
                }
                let end = self.previous_span().end;
                Ok(Expr::Grouping { expr: Box::new(expr), span: Span::new(span.start, end) })
            },
            TokenType::LeftBracket => self.list_literal(span),
            TokenType::LeftBrace => self.dict_literal(span),
            _ => {
                let message = concat3(
                    "Expected expression, found '",
                    self.lexeme_at(at),
                    "'",
                );
                Err(BccError::parse_error_with_help(span, message, unexpected_help_text(kind)))
            },
        }
    }

    /// The elements of a list literal, after its `[`, and its `]`.
    fn list_literal(&mut self, start_span: Span) -> (result: Result<Expr, BccError>)
        requires
            old(self).inv(),
        ensures
            final(self).after(old(self), result is Ok),
            final(self).current == grammar::list_literal(
                old(self).ts(),
                old(self).current as int,
                start_span,
            ).pos,
            match result {
                Ok(t) => grammar::list_literal(
                    old(self).ts(),
                    old(self).current as int,
                    start_span,
                ).result == Ok::<ExprView, ErrorView>(t@),
                Err(e) => grammar::list_literal(
                    old(self).ts(),
                    old(self).current as int,
                    start_span,
                ).result == Err::<ExprView, ErrorView>(e@),
            },
        decreases old(self).tokens.len() - old(self).current, 80int,
    {
        reveal(grammar::list_literal);
        reveal(grammar::list_items);
        let ghost ts = self.ts();
        let ghost p = self.current as int;
        let ghost items = if grammar::check(ts, p, TokenType::RightBracket) {
            grammar::done(Seq::empty(), p)
        } else {
            grammar::list_items(ts, p, Seq::empty())
        };
        let elements = if self.check(TokenType::RightBracket) {
            let v: Vec<Expr> = Vec::new();
            assert(expr_views(v@) =~= Seq::empty());
            v
        } else {
            match self.list_items() {
                Ok(elements) => elements,
                Err(e) => {
                    return Err(e);
                },
            }
        };
        assert(items == grammar::done(expr_views(elements@), self.current as int));
        let ghost q = self.current as int;
        match self.consume_with_help(
            TokenType::RightBracket,
            "Expected ']' after list elements",
            owned("List literals must be closed with ']' after the opening '['. Example: [1, 2, 3]"),
        ) {
            Ok(()) => {},
            Err(e) => {
                return Err(e);
            },
        }
        assert(self.current == q + 1);
        let end = self.previous_span().end;
        assert(end == ts[q].span.end);
        Ok(Expr::List { elements, span: Span::new(start_span.start, end) })
    }

    /// One or more expressions separated by commas.
    fn list_items(&mut self) -> (result: Result<Vec<Expr>, BccError>)
        requires
            old(self).inv(),
        ensures
            final(self).after(old(self), result is Ok),
            final(self).current == grammar::list_items(
                old(self).ts(),
                old(self).current as int,
                Seq::empty(),
            ).pos,
            match result {
                Ok(elements) => grammar::list_items(
                    old(self).ts(),
                    old(self).current as int,
                    Seq::empty(),
                ).result == Ok::<Seq<ExprView>, ErrorView>(expr_views(elements@)),
                Err(e) => grammar::list_items(
                    old(self).ts(),
                    old(self).current as int,
                    Seq::empty(),
                ).result == Err::<Seq<ExprView>, ErrorView>(e@),
            },
        decreases old(self).tokens.len() - old(self).current, 79int,
    {
        let mut elements: Vec<Expr> = Vec::new();
        assert(expr_views(elements@) =~= Seq::empty());
        loop
            invariant_except_break
                grammar::list_items(old(self).ts(), old(self).current as int, Seq::empty())
                    == grammar::list_items(self.ts(), self.current as int, expr_views(elements@)),
            invariant
                self.after(old(self), false),
            ensures
                self.after(old(self), true),
                grammar::list_items(old(self).ts(), old(self).current as int, Seq::empty())
                    == grammar::done(expr_views(elements@), self.current as int),
            decreases self.tokens.len() - self.current,
        {
            proof {
                grammar::unfold_list_items(self.ts(), self.current as int, expr_views(elements@));
            }
            let ghost before = elements@;
            match self.expression() {
                Ok(e) => {
                    elements.push(e);
                    assert(expr_views(elements@) =~= expr_views(before).push(e@));
                },
                Err(e) => {
                    return Err(e);
                },
            }
            if !self.match_type(TokenType::Comma) {
                break;
            }
        }
        Ok(elements)
    }
    /// The entries of a dictionary literal, after its `{`, and its `}`.
    fn dict_literal(&mut self, start_span: Span) -> (result: Result<Expr, BccError>)
        requires
            old(self).inv(),
        ensures
            final(self).after(old(self), result is Ok),
            agrees(
                result,
                final(self).current,
                grammar::dict_literal(old(self).ts(), old(self).current as int, start_span),
            ),
        decreases old(self).tokens.len() - old(self).current, 80int,
    {
        proof {
            grammar::unfold_dict_literal(self.ts(), self.current as int, start_span);
        }
        let pairs = if self.check(TokenType::RightBrace) {
            let none: Vec<(Expr, Expr)> = Vec::new();
            assert(pair_views(none@) =~= Seq::empty());
            none
        } else {
            match self.dict_items() {
                Ok(pairs) => pairs,
                Err(e) => {
                    return Err(e);
                },
            }
        };
        match self.consume_with_help(
            TokenType::RightBrace,
            "Expected '}' after dictionary pairs",
            owned(
                "Dictionary literals must be closed with '}' after the opening '{'. Example: {\"key\": \"value\"}",
            ),
        ) {
            Ok(()) => {},
            Err(e) => {
                return Err(e);
            },
        }
        let end = self.previous_span().end;
        Ok(Expr::Dict { pairs, span: Span::new(start_span.start, end) })
    }

    /// One or more `key : value` entries separated by commas.
    fn dict_items(&mut self) -> (result: Result<Vec<(Expr, Expr)>, BccError>)
        requires
            old(self).inv(),
        ensures
            final(self).after(old(self), result is Ok),
            final(self).current == grammar::dict_items(
                old(self).ts(),
                old(self).current as int,
                Seq::empty(),
            ).pos,
            match result {
                Ok(pairs) => grammar::dict_items(
                    old(self).ts(),
                    old(self).current as int,
                    Seq::empty(),
                ).result == Ok::<Seq<(ExprView, ExprView)>, ErrorView>(pair_views(pairs@)),
                Err(e) => grammar::dict_items(
                    old(self).ts(),
                    old(self).current as int,
                    Seq::empty(),
                ).result == Err::<Seq<(ExprView, ExprView)>, ErrorView>(e@),
            },
        decreases old(self).tokens.len() - old(self).current, 79int,
    {
        let mut pairs: Vec<(Expr, Expr)> = Vec::new();
        assert(pair_views(pairs@) =~= Seq::empty());
        loop
            invariant_except_break
                grammar::dict_items(old(self).ts(), old(self).current as int, Seq::empty())
                    == grammar::dict_items(self.ts(), self.current as int, pair_views(pairs@)),
            invariant
                self.after(old(self), false),
            ensures
                self.after(old(self), true),
                grammar::dict_items(old(self).ts(), old(self).current as int, Seq::empty())
                    == grammar::done(pair_views(pairs@), self.current as int),
            decreases self.tokens.len() - self.current,
        {
            proof {
                grammar::unfold_dict_items(self.ts(), self.current as int, pair_views(pairs@));
            }
            let ghost before = pairs@;
            let key = match self.expression() {
                Ok(e) => e,
                Err(e) => {
                    return Err(e);
                },
            };
            match self.consume_with_help(
                TokenType::Colon,
                "Expected ':' after dictionary key",
                owned(
                    "Dictionary entries require a colon ':' between key and value. Example: {\"key\": \"value\"}",
                ),
            ) {
                Ok(()) => {},
                Err(e) => {
                    return Err(e);
                },
            }
            let value = match self.expression() {
                Ok(e) => e,
                Err(e) => {
                    return Err(e);
                },
            };
            let ghost pair = (key@, value@);
            pairs.push((key, value));
            assert(pair_views(pairs@) =~= pair_views(before).push(pair));
            if !self.match_type(TokenType::Comma) {
                break;
            }
        }
        Ok(pairs)
    }

    /// The kind of the token with index `i`.
    fn kind_at(&self, i: usize) -> (kind: TokenType)
        requires
            self.inv(),
            i < self.tokens.len(),
        ensures
            kind == self.ts()[i as int].token_type,
    {
        reveal(views_of);
        self.tokens[i].token_type
    }

    /// The span of the token with index `i`.
    fn span_at(&self, i: usize) -> (span: Span)
        requires
            self.inv(),
            i < self.tokens.len(),
        ensures
            span == self.ts()[i as int].span,
    {
        reveal(views_of);
        self.tokens[i].span
    }

    /// The text of the token with index `i`.
    fn lexeme_at(&self, i: usize) -> (lexeme: &str)
        requires
            self.inv(),
            i < self.tokens.len(),
        ensures
            lexeme@ == self.ts()[i as int].lexeme,
    {
        reveal(views_of);
        self.tokens[i].lexeme.as_str()
    }

    /// Takes the token at the cursor if it has the given kind.
    fn match_type(&mut self, kind: TokenType) -> (matched: bool)
        requires
            old(self).inv(),
        ensures
            final(self).after(old(self), matched),
            matched == grammar::check(old(self).ts(), old(self).current as int, kind),
            final(self).current == old(self).current + if matched {
                1int
            } else {
                0int
            },
    {
        if self.check(kind) {
            self.advance();
            true
        } else {
            false
        }
    }

    fn check(&self, kind: TokenType) -> (b: bool)
        requires
            self.inv(),
        ensures
            b == grammar::check(self.ts(), self.current as int, kind),
    {
        if self.is_at_end() {
            false
        } else {
            self.kind_at(self.current) == kind
        }
    }

    /// Moves past the token at the cursor, unless it is the end of input.
    fn advance(&mut self)
        requires
            old(self).inv(),
        ensures
            final(self).after(old(self), false),
            final(self).current == if grammar::at_end(old(self).ts(), old(self).current as int) {
                old(self).current as int
            } else {
                old(self).current + 1
            },
    {
        if !self.is_at_end() {
            self.current = self.current + 1;
        }
    }

    fn is_at_end(&self) -> (b: bool)
        requires
            self.inv(),
        ensures
            b == grammar::at_end(self.ts(), self.current as int),
    {
        self.kind_at(self.current) == TokenType::Eof
    }

    /// The kind of the token at the cursor.
    fn peek_kind(&self) -> (kind: TokenType)
        requires
            self.inv(),
        ensures
            kind == self.ts()[self.current as int].token_type,
    {
        self.kind_at(self.current)
    }

    /// The span of the token at the cursor.
    fn peek_span(&self) -> (span: Span)
        requires
            self.inv(),
        ensures
            span == self.ts()[self.current as int].span,
    {
        self.span_at(self.current)
    }

    /// The span of the token before the cursor.
    fn previous_span(&self) -> (span: Span)
        requires
            self.inv(),
            self.current >= 1,
        ensures
            span == self.ts()[self.current - 1].span,
    {
        self.span_at(self.current - 1)
    }

    /// Where a missing token is reported.
    fn expected_at(&self) -> (span: Span)
        requires
            self.inv(),
        ensures
            span == grammar::expected_span(self.ts(), self.current as int),
    {
        if self.is_at_end() && self.current > 0 {
            assert(self.ts()[self.current - 1].span.end < usize::MAX);
            Span::single(self.span_at(self.current - 1).end)
        } else {
            self.span_at(self.current)
        }
    }

    /// Takes the token of the given kind, or fails with the message.
    fn consume(&mut self, kind: TokenType, message: &str) -> (result: Result<(), BccError>)
        requires
            old(self).inv(),
        ensures
            final(self).after(old(self), result is Ok),
            final(self).current == grammar::consume(
                old(self).ts(),
                old(self).current as int,
                kind,
                message@,
                None,
            ).pos,
            match result {
                Ok(_) => grammar::consume(
                    old(self).ts(),
                    old(self).current as int,
                    kind,
                    message@,
                    None,
                ).result is Ok,
                Err(e) => grammar::consume(
                    old(self).ts(),
                    old(self).current as int,
                    kind,
                    message@,
                    None,
                ).result == Err::<TokenView, ErrorView>(e@),
            },
    {
        if self.check(kind) {
            self.advance();
            Ok(())
        } else {
            Err(BccError::parse_error(self.expected_at(), owned(message)))
        }
    }

    /// Takes the token of the given kind, or fails with the message and
    /// the help text.
    fn consume_with_help(&mut self, kind: TokenType, message: &str, help: String) -> (result:
        Result<(), BccError>)
        requires
            old(self).inv(),
        ensures
            final(self).after(old(self), result is Ok),
            final(self).current == grammar::consume(
                old(self).ts(),
                old(self).current as int,
                kind,
                message@,
                Some(help@),
            ).pos,
            match result {
                Ok(_) => grammar::consume(
                    old(self).ts(),
                    old(self).current as int,
                    kind,
                    message@,
                    Some(help@),
                ).result is Ok,
                Err(e) => grammar::consume(
                    old(self).ts(),
                    old(self).current as int,
                    kind,
                    message@,
                    Some(help@),
                ).result == Err::<TokenView, ErrorView>(e@),
            },
    {
        if self.check(kind) {
            self.advance();
            Ok(())
        } else {
            Err(BccError::parse_error_with_help(self.expected_at(), owned(message), help))
        }
    }

    /// Whether the `{` at the cursor opens a dictionary literal rather
    /// than a block.
    fn is_dictionary_literal(&self) -> (b: bool)
        requires
            self.inv(),
        ensures
            b == grammar::is_dictionary_literal(self.ts(), self.current as int),
    {
        if self.tokens.len() - self.current <= 1 {
            return false;
        }
        if self.kind_at(self.current + 1) == TokenType::RightBrace {
            true
        } else {
            self.scan_for_dictionary_pattern()
        }
    }

    /// Looks a bounded number of tokens ahead for the first colon,
    /// semicolon or closing brace outside parentheses and brackets.
    fn scan_for_dictionary_pattern(&self) -> (b: bool)
        requires
            self.inv(),
            self.current + 1 < self.tokens.len(),
        ensures
            b == grammar::dictionary_ahead(
                self.ts(),
                self.current + 1,
                if self.current + 1 + grammar::lookahead_window() < self.tokens.len() {
                    self.current + 1 + grammar::lookahead_window()
                } else {
                    self.tokens.len() as int
                },
                0,
                0,
            ),
    {
        let first: usize = self.current + 1;
        let mut pos: usize = first;
        let mut paren_depth: i32 = 0;
        let mut bracket_depth: i32 = 0;
        let limit: usize = if self.tokens.len() - first > 20 {
            first + 20
        } else {
            self.tokens.len()
        };
        while pos < limit
            invariant
                self.inv(),
                first <= pos <= limit <= self.tokens.len(),
                limit - first <= 20,
                first == self.current + 1,
                limit == if self.current + 1 + grammar::lookahead_window() < self.tokens.len() {
                    self.current + 1 + grammar::lookahead_window()
                } else {
                    self.tokens.len() as int
                },
                -(pos - first) <= paren_depth <= pos - first,
                -(pos - first) <= bracket_depth <= pos - first,
                grammar::dictionary_ahead(self.ts(), first as int, limit as int, 0, 0)
                    == grammar::dictionary_ahead(
                    self.ts(),
                    pos as int,
                    limit as int,
                    paren_depth as int,
                    bracket_depth as int,
                ),
            decreases limit - pos,
        {
            let kind = self.kind_at(pos);
            assert(self.ts()[pos as int].token_type == kind);
            let top = paren_depth == 0 && bracket_depth == 0;
            match kind {
                TokenType::LeftParen => {
                    paren_depth = paren_depth + 1;
                },
                TokenType::RightParen => {
                    paren_depth = paren_depth - 1;
                },
                TokenType::LeftBracket => {
                    bracket_depth = bracket_depth + 1;
                },
                TokenType::RightBracket => {
                    bracket_depth = bracket_depth - 1;
                },
                TokenType::Colon => {
                    if top {
                        return true;
                    }
                },
                TokenType::Semicolon => {
                    if top {
                        return false;
                    }
                },
                TokenType::RightBrace => {
                    if top {
                        return false;
                    }
                },
                TokenType::Eof => {
                    return false;
                },
                _ => {},
            }
            pos = pos + 1;
        }
        false
    }
}

} // verus!
