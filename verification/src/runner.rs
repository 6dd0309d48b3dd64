//! From source text to a program.
use crate::ast::{
    expr_view, group_ast_views, stmt_view, Expr, ExprView, Program, Stmt, StmtView,
};
use crate::error::{BccError, ErrorView};
use crate::grammar;
use crate::keys::{
    lemma_programs_are_plain, lemma_statement_of_expression, plain, plain_statements,
};
use crate::lexer::{byte_len, scan, Lexer};
use crate::parser::Parser;
use crate::text::owned;
use vstd::prelude::*;

verus! {

/// The program that a source text denotes, or its first error.
pub open spec fn program_of(source: Seq<char>) -> Result<Seq<StmtView>, ErrorView> {
    match scan(source) {
        Ok(tokens) => grammar::parse(tokens),
        Err(e) => Err(e),
    }
}

/// Reads a source text: scans it, then parses the tokens. The outcome is
/// the program, ready to be evaluated, or the first lexical or parse
/// error.
pub fn run(source: &str) -> (result: Result<Program, BccError>)
    requires
        byte_len(source@) + 1 < usize::MAX,
    ensures
        match result {
            Ok(program) => program_of(source@) == Ok::<Seq<StmtView>, ErrorView>(program@),
            Err(e) => program_of(source@) == Err::<Seq<StmtView>, ErrorView>(e@),
        },
        result matches Ok(program) ==> plain_statements(program.statements@),
{
    let mut lexer = Lexer::new(owned(source));
    let tokens = match lexer.scan_tokens() {
        Ok(tokens) => tokens,
        Err(e) => {
            return Err(e);
        },
    };
    let mut parser = Parser::new(tokens);
    let result = parser.parse();
    proof {
        if result is Ok {
            lemma_programs_are_plain(source@, result->Ok_0.statements@);
        }
    }
    result
}

/// The expression whose value an interactive session shows: that of a
/// program that is a single expression statement, unless the expression is
/// an assignment.
pub open spec fn shown(statements: Seq<StmtView>) -> Option<ExprView> {
    if statements.len() == 1 {
        match statements[0] {
            StmtView::Expression { expr, .. } => if expr is Assign {
                None
            } else {
                Some(expr)
            },
            _ => None,
        }
    } else {
        None
    }
}

/// Only an assignment has the contents of an assignment.
proof fn lemma_assignment_view(e: Expr)
    ensures
        expr_view(e) is Assign <==> e is Assign,
{
    reveal(expr_view);
}

/// Only an expression statement has the contents of one.
proof fn lemma_expression_view(s: Stmt)
    ensures
        stmt_view(s) is Expression <==> s is Expression,
{
    reveal(stmt_view);
}

/// The expression of the program whose value an interactive session
/// shows, if there is one.
pub fn echoed<'a>(program: &'a Program) -> (expression: Option<&'a Expr>)
    ensures
        match expression {
            Some(e) => shown(program@) == Some(expr_view(*e)),
            None => shown(program@) is None,
        },
        plain_statements(program.statements@) ==> (expression matches Some(e) ==> plain(*e)),
{
    broadcast use group_ast_views;

    if program.statements.len() != 1 {
        return None;
    }
    proof {
        lemma_expression_view(program.statements@[0]);
        assert(program@[0] == stmt_view(program.statements@[0]));
    }
    match &program.statements[0] {
        Stmt::Expression { expr, span } => {
            proof {
                lemma_assignment_view(*expr);
                if plain_statements(program.statements@) {
                    lemma_statement_of_expression(program.statements@[0]);
                }
                assert(program@[0] == stmt_view(Stmt::Expression { expr: *expr, span: *span }));
            }
            match expr {
                Expr::Assign { .. } => None,
                _ => Some(expr),
            }
        },
        _ => None,
    }
}

} // verus!
