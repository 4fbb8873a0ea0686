//! Statements, and their view as mathematical trees.
use vstd::prelude::*;
use crate::expr::Expr;
use crate::token::Token;

verus! {

#[derive(Debug)]
pub enum Stmt {
    Expression(Expr),
    Print(Expr),
    Var { name: Token, initializer: Option<Expr> },
    Block(Vec<Stmt>),
}

/// A statement with its blocks as sequences.
pub enum StmtView {
    Expression(Expr),
    Print(Expr),
    Var(Token, Option<Expr>),
    Block(Seq<StmtView>),
}

pub open spec fn stmt_views(v: Seq<Stmt>) -> Seq<StmtView> {
    Seq::new(v.len(), |i: int| v[i].view())
}

impl Stmt {
    pub open spec fn view(&self) -> StmtView
        decreases self,
    {
        match self {
            Stmt::Expression(e) => StmtView::Expression(*e),
            Stmt::Print(e) => StmtView::Print(*e),
            Stmt::Var { name, initializer } => StmtView::Var(*name, *initializer),
            Stmt::Block(v) => StmtView::Block(
                Seq::new(v.len() as nat, |i: int| if 0 <= i < v.len() { v[i].view() } else { StmtView::Block(Seq::empty()) }),
            ),
        }
    }
}

pub proof fn lemma_stmt_views_push(v: Seq<Stmt>, s: Stmt)
    ensures
        stmt_views(v.push(s)) == stmt_views(v).push(s.view()),
{
    assert(stmt_views(v.push(s)) =~= stmt_views(v).push(s.view()));
}

} // verus!
