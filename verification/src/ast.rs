//! Syntax trees: statements and expressions, each with its span.
use crate::error::Span;
use crate::value::{value_view, Value, ValueView};
use vstd::prelude::*;

verus! {

#[derive(Debug, Clone, Copy, PartialEq, Eq, Structural)]
pub enum BinaryOp {
    Add,
    Subtract,
    Multiply,
    Divide,
    Equal,
    NotEqual,
    Less,
    LessEqual,
    Greater,
    GreaterEqual,
    In,
}

#[derive(Debug, Clone, Copy, PartialEq, Eq, Structural)]
pub enum UnaryOp {
    Negate,
    Not,
}

#[derive(Debug, Clone, Copy, PartialEq, Eq, Structural)]
pub enum LogicalOp {
    And,
    Or,
}

/// A target of a multi-assignment: a variable, or the placeholder `_`.
#[derive(Debug)]
pub enum AssignTarget {
    Variable { name: String, span: Span },
    Ignore { span: Span },
}

/// A keyword argument of a call: `name=value`.
#[derive(Debug)]
pub struct KeywordArg {
    pub name: String,
    pub value: Expr,
    pub span: Span,
}

#[derive(Debug)]
pub enum Expr {
    Literal { value: Value, span: Span },
    /// A floating-point literal as it is written: digits, a point, digits.
    DoubleLiteral { text: String, span: Span },
    Variable { name: String, span: Span },
    Assign { name: String, value: Box<Expr>, span: Span },
    /// Destructuring assignment: `a, b, c = expr`.
    MultiAssign { targets: Vec<AssignTarget>, value: Box<Expr>, span: Span },
    Binary { left: Box<Expr>, operator: BinaryOp, right: Box<Expr>, span: Span },
    Unary { operator: UnaryOp, operand: Box<Expr>, span: Span },
    Logical { left: Box<Expr>, operator: LogicalOp, right: Box<Expr>, span: Span },
    Call { callee: Box<Expr>, args: Vec<Expr>, span: Span },
    CallWithKwargs {
        callee: Box<Expr>,
        positional_args: Vec<Expr>,
        keyword_args: Vec<KeywordArg>,
        span: Span,
    },
    /// `return a, b, c`.
    MultiReturn { values: Vec<Expr>, span: Span },
    Grouping { expr: Box<Expr>, span: Span },
    List { elements: Vec<Expr>, span: Span },
    Dict { pairs: Vec<(Expr, Expr)>, span: Span },
    PropertyAccess { object: Box<Expr>, property: String, span: Span },
    Tuple { elements: Vec<Expr>, span: Span },
}

#[derive(Debug)]
pub enum Stmt {
    Expression { expr: Expr, span: Span },
    Block { statements: Vec<Stmt>, span: Span },
    If { condition: Expr, then_branch: Box<Stmt>, else_branch: Option<Box<Stmt>>, span: Span },
    While { condition: Expr, body: Box<Stmt>, span: Span },
    For {
        initializer: Option<Box<Stmt>>,
        condition: Option<Expr>,
        increment: Option<Expr>,
        body: Box<Stmt>,
        span: Span,
    },
}

#[derive(Debug)]
pub struct Program {
    pub statements: Vec<Stmt>,
}

// ---------------------------------------------------------------------------
// Mathematical content
// ---------------------------------------------------------------------------
/// The contents of an assignment target.
pub enum AssignTargetView {
    Variable { name: Seq<char>, span: Span },
    Ignore { span: Span },
}

/// The contents of a keyword argument.
pub struct KeywordArgView {
    pub name: Seq<char>,
    pub value: ExprView,
    pub span: Span,
}

/// The contents of an expression.
pub enum ExprView {
    Literal { value: ValueView, span: Span },
    DoubleLiteral { text: Seq<char>, span: Span },
    Variable { name: Seq<char>, span: Span },
    Assign { name: Seq<char>, value: Box<ExprView>, span: Span },
    MultiAssign { targets: Seq<AssignTargetView>, value: Box<ExprView>, span: Span },
    Binary { left: Box<ExprView>, operator: BinaryOp, right: Box<ExprView>, span: Span },
    Unary { operator: UnaryOp, operand: Box<ExprView>, span: Span },
    Logical { left: Box<ExprView>, operator: LogicalOp, right: Box<ExprView>, span: Span },
    Call { callee: Box<ExprView>, args: Seq<ExprView>, span: Span },
    CallWithKwargs {
        callee: Box<ExprView>,
        positional_args: Seq<ExprView>,
        keyword_args: Seq<KeywordArgView>,
        span: Span,
    },
    MultiReturn { values: Seq<ExprView>, span: Span },
    Grouping { expr: Box<ExprView>, span: Span },
    List { elements: Seq<ExprView>, span: Span },
    Dict { pairs: Seq<(ExprView, ExprView)>, span: Span },
    PropertyAccess { object: Box<ExprView>, property: Seq<char>, span: Span },
    Tuple { elements: Seq<ExprView>, span: Span },
}

/// The contents of a statement.
pub enum StmtView {
    Expression { expr: ExprView, span: Span },
    Block { statements: Seq<StmtView>, span: Span },
    If {
        condition: ExprView,
        then_branch: Box<StmtView>,
        else_branch: Option<Box<StmtView>>,
        span: Span,
    },
    While { condition: ExprView, body: Box<StmtView>, span: Span },
    For {
        initializer: Option<Box<StmtView>>,
        condition: Option<ExprView>,
        increment: Option<ExprView>,
        body: Box<StmtView>,
        span: Span,
    },
}

impl View for AssignTarget {
    type V = AssignTargetView;

    open spec fn view(&self) -> AssignTargetView {
        match self {
            AssignTarget::Variable { name, span } => AssignTargetView::Variable {
                name: name@,
                span: *span,
            },
            AssignTarget::Ignore { span } => AssignTargetView::Ignore { span: *span },
        }
    }
}

/// The contents of a sequence of assignment targets.
pub open spec fn target_views(targets: Seq<AssignTarget>) -> Seq<AssignTargetView> {
    Seq::new(targets.len(), |i: int| targets[i]@)
}

/// The contents of an expression.
#[verifier::opaque]
pub open spec fn expr_view(e: Expr) -> ExprView
    decreases e,
{
    match e {
        Expr::Literal { value, span } => ExprView::Literal { value: value_view(value), span },
        Expr::DoubleLiteral { text, span } => ExprView::DoubleLiteral { text: text@, span },
        Expr::Variable { name, span } => ExprView::Variable { name: name@, span },
        Expr::Assign { name, value, span } => ExprView::Assign {
            name: name@,
            value: Box::new(expr_view(*value)),
            span,
        },
        Expr::MultiAssign { targets, value, span } => ExprView::MultiAssign {
            targets: target_views(targets@),
            value: Box::new(expr_view(*value)),
            span,
        },
        Expr::Binary { left, operator, right, span } => ExprView::Binary {
            left: Box::new(expr_view(*left)),
            operator,
            right: Box::new(expr_view(*right)),
            span,
        },
        Expr::Unary { operator, operand, span } => ExprView::Unary {
            operator,
            operand: Box::new(expr_view(*operand)),
            span,
        },
        Expr::Logical { left, operator, right, span } => ExprView::Logical {
            left: Box::new(expr_view(*left)),
            operator,
            right: Box::new(expr_view(*right)),
            span,
        },
        Expr::Call { callee, args, span } => ExprView::Call {
            callee: Box::new(expr_view(*callee)),
            args: Seq::new(
                args@.len(),
                |i: int|
                    if 0 <= i < args@.len() {
                        expr_view(args@[i])
                    } else {
                        arbitrary()
                    },
            ),
            span,
        },
        Expr::CallWithKwargs { callee, positional_args, keyword_args, span } => {
            ExprView::CallWithKwargs {
                callee: Box::new(expr_view(*callee)),
                positional_args: Seq::new(
                    positional_args@.len(),
                    |i: int|
                        if 0 <= i < positional_args@.len() {
                            expr_view(positional_args@[i])
                        } else {
                            arbitrary()
                        },
                ),
                keyword_args: Seq::new(
                    keyword_args@.len(),
                    |i: int|
                        if 0 <= i < keyword_args@.len() {
                            KeywordArgView {
                                name: keyword_args@[i].name@,
                                value: expr_view(keyword_args@[i].value),
                                span: keyword_args@[i].span,
                            }
                        } else {
                            arbitrary()
                        },
                ),
                span,
            }
        },
        Expr::MultiReturn { values, span } => ExprView::MultiReturn {
            values: Seq::new(
                values@.len(),
                |i: int|
                    if 0 <= i < values@.len() {
                        expr_view(values@[i])
                    } else {
                        arbitrary()
                    },
            ),
            span,
        },
        Expr::Grouping { expr, span } => ExprView::Grouping {
            expr: Box::new(expr_view(*expr)),
            span,
        },
        Expr::List { elements, span } => ExprView::List {
            elements: Seq::new(
                elements@.len(),
                |i: int|
                    if 0 <= i < elements@.len() {
                        expr_view(elements@[i])
                    } else {
                        arbitrary()
                    },
            ),
            span,
        },
        Expr::Dict { pairs, span } => ExprView::Dict {
            pairs: Seq::new(
                pairs@.len(),
                |i: int|
                    if 0 <= i < pairs@.len() {
                        (expr_view(pairs@[i].0), expr_view(pairs@[i].1))
                    } else {
                        arbitrary()
                    },
            ),
            span,
        },
        Expr::PropertyAccess { object, property, span } => ExprView::PropertyAccess {
            object: Box::new(expr_view(*object)),
            property: property@,
            span,
        },
        Expr::Tuple { elements, span } => ExprView::Tuple {
            elements: Seq::new(
                elements@.len(),
                |i: int|
                    if 0 <= i < elements@.len() {
                        expr_view(elements@[i])
                    } else {
                        arbitrary()
                    },
            ),
            span,
        },
    }
}

impl View for Expr {
    type V = ExprView;

    open spec fn view(&self) -> ExprView {
        expr_view(*self)
    }
}

impl View for KeywordArg {
    type V = KeywordArgView;

    open spec fn view(&self) -> KeywordArgView {
        KeywordArgView { name: self.name@, value: self.value@, span: self.span }
    }
}

/// The contents of a sequence of expressions.
pub open spec fn expr_views(exprs: Seq<Expr>) -> Seq<ExprView> {
    Seq::new(exprs.len(), |i: int| expr_view(exprs[i]))
}

/// The contents of a sequence of keyword arguments.
pub open spec fn keyword_views(args: Seq<KeywordArg>) -> Seq<KeywordArgView> {
    Seq::new(args.len(), |i: int| args[i]@)
}

/// The contents of a sequence of key and value expressions.
pub open spec fn pair_views(pairs: Seq<(Expr, Expr)>) -> Seq<(ExprView, ExprView)> {
    Seq::new(pairs.len(), |i: int| (expr_view(pairs[i].0), expr_view(pairs[i].1)))
}

/// The contents of a call, part by part.
pub broadcast proof fn lemma_call_view(callee: Box<Expr>, args: Vec<Expr>, span: Span)
    ensures
        #[trigger] expr_view(Expr::Call { callee, args, span }) == (ExprView::Call {
            callee: Box::new(expr_view(*callee)),
            args: expr_views(args@),
            span,
        }),
{
    reveal(expr_view);
    assert(expr_view(Expr::Call { callee, args, span })->Call_args =~= expr_views(args@));
}

/// The contents of a call with keyword arguments, part by part.
pub broadcast proof fn lemma_kwcall_view(
    callee: Box<Expr>,
    positional_args: Vec<Expr>,
    keyword_args: Vec<KeywordArg>,
    span: Span,
)
    ensures
        #[trigger] expr_view(Expr::CallWithKwargs { callee, positional_args, keyword_args, span })
            == (ExprView::CallWithKwargs {
            callee: Box::new(expr_view(*callee)),
            positional_args: expr_views(positional_args@),
            keyword_args: keyword_views(keyword_args@),
            span,
        }),
{
    reveal(expr_view);
    let v = expr_view(Expr::CallWithKwargs { callee, positional_args, keyword_args, span });
    assert(v->CallWithKwargs_positional_args =~= expr_views(positional_args@));
    assert(v->CallWithKwargs_keyword_args =~= keyword_views(keyword_args@));
}

/// The contents of a multiple return, part by part.
pub broadcast proof fn lemma_multi_return_view(values: Vec<Expr>, span: Span)
    ensures
        #[trigger] expr_view(Expr::MultiReturn { values, span }) == (ExprView::MultiReturn {
            values: expr_views(values@),
            span,
        }),
{
    reveal(expr_view);
    assert(expr_view(Expr::MultiReturn { values, span })->MultiReturn_values =~= expr_views(
        values@,
    ));
}

/// The contents of a list, part by part.
pub broadcast proof fn lemma_list_expr_view(elements: Vec<Expr>, span: Span)
    ensures
        #[trigger] expr_view(Expr::List { elements, span }) == (ExprView::List {
            elements: expr_views(elements@),
            span,
        }),
{
    reveal(expr_view);
    assert(expr_view(Expr::List { elements, span })->List_elements =~= expr_views(elements@));
}

/// The contents of a tuple, part by part.
pub broadcast proof fn lemma_tuple_expr_view(elements: Vec<Expr>, span: Span)
    ensures
        #[trigger] expr_view(Expr::Tuple { elements, span }) == (ExprView::Tuple {
            elements: expr_views(elements@),
            span,
        }),
{
    reveal(expr_view);
    assert(expr_view(Expr::Tuple { elements, span })->Tuple_elements =~= expr_views(elements@));
}

/// The contents of a dictionary, part by part.
pub broadcast proof fn lemma_dict_expr_view(pairs: Vec<(Expr, Expr)>, span: Span)
    ensures
        #[trigger] expr_view(Expr::Dict { pairs, span }) == (ExprView::Dict {
            pairs: pair_views(pairs@),
            span,
        }),
{
    reveal(expr_view);
    assert(expr_view(Expr::Dict { pairs, span })->Dict_pairs =~= pair_views(pairs@));
}

/// The contents of a statement.
#[verifier::opaque]
pub open spec fn stmt_view(s: Stmt) -> StmtView
    decreases s,
{
    match s {
        Stmt::Expression { expr, span } => StmtView::Expression { expr: expr_view(expr), span },
        Stmt::Block { statements, span } => StmtView::Block {
            statements: Seq::new(
                statements@.len(),
                |i: int|
                    if 0 <= i < statements@.len() {
                        stmt_view(statements@[i])
                    } else {
                        arbitrary()
                    },
            ),
            span,
        },
        Stmt::If { condition, then_branch, else_branch, span } => StmtView::If {
            condition: expr_view(condition),
            then_branch: Box::new(stmt_view(*then_branch)),
            else_branch: match else_branch {
                Some(s) => Some(Box::new(stmt_view(*s))),
                None => None,
            },
            span,
        },
        Stmt::While { condition, body, span } => StmtView::While {
            condition: expr_view(condition),
            body: Box::new(stmt_view(*body)),
            span,
        },
        Stmt::For { initializer, condition, increment, body, span } => StmtView::For {
            initializer: match initializer {
                Some(s) => Some(Box::new(stmt_view(*s))),
                None => None,
            },
            condition: match condition {
                Some(e) => Some(expr_view(e)),
                None => None,
            },
            increment: match increment {
                Some(e) => Some(expr_view(e)),
                None => None,
            },
            body: Box::new(stmt_view(*body)),
            span,
        },
    }
}

impl View for Stmt {
    type V = StmtView;

    open spec fn view(&self) -> StmtView {
        stmt_view(*self)
    }
}

/// The contents of a sequence of statements.
pub open spec fn stmt_views(stmts: Seq<Stmt>) -> Seq<StmtView> {
    Seq::new(stmts.len(), |i: int| stmt_view(stmts[i]))
}

/// The contents of a block, part by part.
pub broadcast proof fn lemma_block_view(statements: Vec<Stmt>, span: Span)
    ensures
        #[trigger] stmt_view(Stmt::Block { statements, span }) == (StmtView::Block {
            statements: stmt_views(statements@),
            span,
        }),
{
    reveal(stmt_view);
    assert(stmt_view(Stmt::Block { statements, span })->Block_statements =~= stmt_views(
        statements@,
    ));
}

/// The contents of a literal, part by part.
pub broadcast proof fn lemma_literal_view(value: Value, span: Span)
    ensures
        #[trigger] expr_view(Expr::Literal { value, span }) == (ExprView::Literal {
            value: value_view(value),
            span,
        }),
{
    reveal(expr_view);
}

/// The contents of a double literal, part by part.
pub broadcast proof fn lemma_double_literal_view(text: String, span: Span)
    ensures
        #[trigger] expr_view(Expr::DoubleLiteral { text, span }) == (ExprView::DoubleLiteral {
            text: text@,
            span,
        }),
{
    reveal(expr_view);
}

/// The contents of a variable, part by part.
pub broadcast proof fn lemma_variable_view(name: String, span: Span)
    ensures
        #[trigger] expr_view(Expr::Variable { name, span }) == (ExprView::Variable {
            name: name@,
            span,
        }),
{
    reveal(expr_view);
}

/// The contents of an assignment, part by part.
pub broadcast proof fn lemma_assign_view(name: String, value: Box<Expr>, span: Span)
    ensures
        #[trigger] expr_view(Expr::Assign { name, value, span }) == (ExprView::Assign {
            name: name@,
            value: Box::new(expr_view(*value)),
            span,
        }),
{
    reveal(expr_view);
}

/// The contents of a multi-assignment, part by part.
pub broadcast proof fn lemma_multi_assign_view(
    targets: Vec<AssignTarget>,
    value: Box<Expr>,
    span: Span,
)
    ensures
        #[trigger] expr_view(Expr::MultiAssign { targets, value, span })
            == (ExprView::MultiAssign {
            targets: target_views(targets@),
            value: Box::new(expr_view(*value)),
            span,
        }),
{
    reveal(expr_view);
}

/// The contents of a binary operation, part by part.
pub broadcast proof fn lemma_binary_view(
    left: Box<Expr>,
    operator: BinaryOp,
    right: Box<Expr>,
    span: Span,
)
    ensures
        #[trigger] expr_view(Expr::Binary { left, operator, right, span }) == (ExprView::Binary {
            left: Box::new(expr_view(*left)),
            operator,
            right: Box::new(expr_view(*right)),
            span,
        }),
{
    reveal(expr_view);
}

/// The contents of a unary operation, part by part.
pub broadcast proof fn lemma_unary_view(operator: UnaryOp, operand: Box<Expr>, span: Span)
    ensures
        #[trigger] expr_view(Expr::Unary { operator, operand, span }) == (ExprView::Unary {
            operator,
            operand: Box::new(expr_view(*operand)),
            span,
        }),
{
    reveal(expr_view);
}

/// The contents of a logical operation, part by part.
pub broadcast proof fn lemma_logical_view(
    left: Box<Expr>,
    operator: LogicalOp,
    right: Box<Expr>,
    span: Span,
)
    ensures
        #[trigger] expr_view(Expr::Logical { left, operator, right, span })
            == (ExprView::Logical {
            left: Box::new(expr_view(*left)),
            operator,
            right: Box::new(expr_view(*right)),
            span,
        }),
{
    reveal(expr_view);
}

/// The contents of a grouping, part by part.
pub broadcast proof fn lemma_grouping_view(expr: Box<Expr>, span: Span)
    ensures
        #[trigger] expr_view(Expr::Grouping { expr, span }) == (ExprView::Grouping {
            expr: Box::new(expr_view(*expr)),
            span,
        }),
{
    reveal(expr_view);
}

/// The contents of a property access, part by part.
pub broadcast proof fn lemma_property_view(object: Box<Expr>, property: String, span: Span)
    ensures
        #[trigger] expr_view(Expr::PropertyAccess { object, property, span })
            == (ExprView::PropertyAccess {
            object: Box::new(expr_view(*object)),
            property: property@,
            span,
        }),
{
    reveal(expr_view);
}

/// The contents of an expression statement, part by part.
pub broadcast proof fn lemma_expression_stmt_view(expr: Expr, span: Span)
    ensures
        #[trigger] stmt_view(Stmt::Expression { expr, span }) == (StmtView::Expression {
            expr: expr_view(expr),
            span,
        }),
{
    reveal(stmt_view);
}

/// The contents of an `if` statement, part by part.
pub broadcast proof fn lemma_if_view(
    condition: Expr,
    then_branch: Box<Stmt>,
    else_branch: Option<Box<Stmt>>,
    span: Span,
)
    ensures
        #[trigger] stmt_view(Stmt::If { condition, then_branch, else_branch, span })
            == (StmtView::If {
            condition: expr_view(condition),
            then_branch: Box::new(stmt_view(*then_branch)),
            else_branch: match else_branch {
                Some(s) => Some(Box::new(stmt_view(*s))),
                None => None,
            },
            span,
        }),
{
    reveal(stmt_view);
}

/// The contents of a `while` loop, part by part.
pub broadcast proof fn lemma_while_view(condition: Expr, body: Box<Stmt>, span: Span)
    ensures
        #[trigger] stmt_view(Stmt::While { condition, body, span }) == (StmtView::While {
            condition: expr_view(condition),
            body: Box::new(stmt_view(*body)),
            span,
        }),
{
    reveal(stmt_view);
}

/// The contents of a `for` loop, part by part.
pub broadcast proof fn lemma_for_view(
    initializer: Option<Box<Stmt>>,
    condition: Option<Expr>,
    increment: Option<Expr>,
    body: Box<Stmt>,
    span: Span,
)
    ensures
        #[trigger] stmt_view(Stmt::For { initializer, condition, increment, body, span })
            == (StmtView::For {
            initializer: match initializer {
                Some(s) => Some(Box::new(stmt_view(*s))),
                None => None,
            },
            condition: match condition {
                Some(e) => Some(expr_view(e)),
                None => None,
            },
            increment: match increment {
                Some(e) => Some(expr_view(e)),
                None => None,
            },
            body: Box::new(stmt_view(*body)),
            span,
        }),
{
    reveal(stmt_view);
}

pub broadcast group group_ast_views {
    lemma_literal_view,
    lemma_double_literal_view,
    lemma_variable_view,
    lemma_assign_view,
    lemma_multi_assign_view,
    lemma_binary_view,
    lemma_unary_view,
    lemma_logical_view,
    lemma_grouping_view,
    lemma_property_view,
    lemma_expression_stmt_view,
    lemma_if_view,
    lemma_while_view,
    lemma_for_view,
    lemma_call_view,
    lemma_kwcall_view,
    lemma_multi_return_view,
    lemma_list_expr_view,
    lemma_tuple_expr_view,
    lemma_dict_expr_view,
    lemma_block_view,
}

impl View for Program {
    type V = Seq<StmtView>;

    open spec fn view(&self) -> Seq<StmtView> {
        stmt_views(self.statements@)
    }
}

/// Where an expression stands in the source.
pub open spec fn expr_span(e: ExprView) -> Span {
    match e {
        ExprView::Literal { span, .. } => span,
        ExprView::DoubleLiteral { span, .. } => span,
        ExprView::Variable { span, .. } => span,
        ExprView::Assign { span, .. } => span,
        ExprView::MultiAssign { span, .. } => span,
        ExprView::Binary { span, .. } => span,
        ExprView::Unary { span, .. } => span,
        ExprView::Logical { span, .. } => span,
        ExprView::Call { span, .. } => span,
        ExprView::CallWithKwargs { span, .. } => span,
        ExprView::MultiReturn { span, .. } => span,
        ExprView::Grouping { span, .. } => span,
        ExprView::List { span, .. } => span,
        ExprView::Dict { span, .. } => span,
        ExprView::PropertyAccess { span, .. } => span,
        ExprView::Tuple { span, .. } => span,
    }
}

/// Where a statement stands in the source.
pub open spec fn stmt_span(s: StmtView) -> Span {
    match s {
        StmtView::Expression { span, .. } => span,
        StmtView::Block { span, .. } => span,
        StmtView::If { span, .. } => span,
        StmtView::While { span, .. } => span,
        StmtView::For { span, .. } => span,
    }
}

impl Expr {
    pub fn span(&self) -> (span: Span)
        ensures
            span == expr_span(self@),
    {
        reveal(expr_view);
        match self {
            Expr::Literal { span, .. } => *span,
            Expr::DoubleLiteral { span, .. } => *span,
            Expr::Variable { span, .. } => *span,
            Expr::Assign { span, .. } => *span,
            Expr::MultiAssign { span, .. } => *span,
            Expr::Binary { span, .. } => *span,
            Expr::Unary { span, .. } => *span,
            Expr::Logical { span, .. } => *span,
            Expr::Call { span, .. } => *span,
            Expr::CallWithKwargs { span, .. } => *span,
            Expr::MultiReturn { span, .. } => *span,
            Expr::Grouping { span, .. } => *span,
            Expr::List { span, .. } => *span,
            Expr::Dict { span, .. } => *span,
            Expr::PropertyAccess { span, .. } => *span,
            Expr::Tuple { span, .. } => *span,
        }
    }
}

impl Stmt {
    pub fn span(&self) -> (span: Span)
        ensures
            span == stmt_span(self@),
    {
        reveal(stmt_view);
        match self {
            Stmt::Expression { span, .. } => *span,
            Stmt::Block { span, .. } => *span,
            Stmt::If { span, .. } => *span,
            Stmt::While { span, .. } => *span,
            Stmt::For { span, .. } => *span,
        }
    }
}

} // verus!
