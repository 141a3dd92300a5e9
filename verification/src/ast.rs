//! The syntax tree shared by the parser and the evaluator, with the
//! mathematical view of each node.
use vstd::prelude::*;
use crate::text::{clone_names, names_view};

verus! {

/// A binary operator.
#[derive(Clone, Copy, Debug, PartialEq, Eq, Structural)]
pub enum BinaryOp {
    Add,
    Sub,
    Mul,
    Div,
}

/// An expression. A number literal holds the bit pattern of its value.
#[derive(Debug, PartialEq)]
pub enum Expr {
    Number(u64),
    String(String),
    Ident(String),
    Binary { left: Box<Expr>, op: BinaryOp, right: Box<Expr> },
    Call { name: String, args: Vec<Expr> },
}

/// A statement.
#[derive(Debug, PartialEq)]
pub enum Stmt {
    Let(String, Expr),
    Expr(Expr),
    FuncDef { name: String, params: Vec<String>, body: Vec<Stmt> },
    Print(Expr),
}

/// A program: its top-level statements, in order.
#[derive(Debug, PartialEq)]
pub struct Program {
    pub statements: Vec<Stmt>,
}

/// The view of an [`Expr`]: the same tree over sequences of characters.
pub ghost enum ExprView {
    Number(u64),
    String(Seq<char>),
    Ident(Seq<char>),
    Binary { left: Box<ExprView>, op: BinaryOp, right: Box<ExprView> },
    Call { name: Seq<char>, args: Seq<ExprView> },
}

/// The view of a [`Stmt`].
pub ghost enum StmtView {
    Let(Seq<char>, ExprView),
    Expr(ExprView),
    FuncDef { name: Seq<char>, params: Seq<Seq<char>>, body: Seq<StmtView> },
    Print(ExprView),
}

/// The view of one expression.
pub open spec fn expr_view(e: Expr) -> ExprView
    decreases e,
{
    match e {
        Expr::Number(n) => ExprView::Number(n),
        Expr::String(s) => ExprView::String(s@),
        Expr::Ident(name) => ExprView::Ident(name@),
        Expr::Binary { left, op, right } => ExprView::Binary {
            left: Box::new(expr_view(*left)),
            op,
            right: Box::new(expr_view(*right)),
        },
        Expr::Call { name, args } => ExprView::Call { name: name@, args: exprs_view(args@) },
    }
}

/// The views of a sequence of expressions, in order.
pub open spec fn exprs_view(exprs: Seq<Expr>) -> Seq<ExprView>
    decreases exprs,
{
    Seq::new(
        exprs.len(),
        |i: int|
            if 0 <= i < exprs.len() {
                expr_view(exprs[i])
            } else {
                arbitrary()
            },
    )
}

/// The view of one statement.
pub open spec fn stmt_view(s: Stmt) -> StmtView
    decreases s,
{
    match s {
        Stmt::Let(name, e) => StmtView::Let(name@, expr_view(e)),
        Stmt::Expr(e) => StmtView::Expr(expr_view(e)),
        Stmt::FuncDef { name, params, body } => StmtView::FuncDef {
            name: name@,
            params: names_view(params@),
            body: stmts_view(body@),
        },
        Stmt::Print(e) => StmtView::Print(expr_view(e)),
    }
}

/// The views of a sequence of statements, in order.
pub open spec fn stmts_view(stmts: Seq<Stmt>) -> Seq<StmtView>
    decreases stmts,
{
    Seq::new(
        stmts.len(),
        |i: int|
            if 0 <= i < stmts.len() {
                stmt_view(stmts[i])
            } else {
                arbitrary()
            },
    )
}

impl View for Expr {
    type V = ExprView;

    open spec fn view(&self) -> ExprView {
        expr_view(*self)
    }
}

impl View for Stmt {
    type V = StmtView;

    open spec fn view(&self) -> StmtView {
        stmt_view(*self)
    }
}

impl View for Program {
    type V = Seq<StmtView>;

    open spec fn view(&self) -> Seq<StmtView> {
        stmts_view(self.statements@)
    }
}

/// Pushing an expression onto a vector pushes its view onto the view.
pub proof fn lemma_exprs_view_push(exprs: Seq<Expr>, e: Expr)
    ensures
        exprs_view(exprs.push(e)) == exprs_view(exprs).push(e@),
{
    assert(exprs_view(exprs.push(e)) =~= exprs_view(exprs).push(e@));
}

/// Pushing a statement onto a vector pushes its view onto the view.
pub proof fn lemma_stmts_view_push(stmts: Seq<Stmt>, s: Stmt)
    ensures
        stmts_view(stmts.push(s)) == stmts_view(stmts).push(s@),
{
    assert(stmts_view(stmts.push(s)) =~= stmts_view(stmts).push(s@));
}

/// A copy of `exprs`, expression by expression.
pub fn clone_exprs(exprs: &Vec<Expr>) -> (copy: Vec<Expr>)
    ensures
        exprs_view(copy@) == exprs_view(exprs@),
    decreases exprs,
{
    let mut copy: Vec<Expr> = Vec::new();
    let mut i: usize = 0;
    while i < exprs.len()
        invariant
            i <= exprs.len(),
            copy.len() == i,
            forall|j: int| 0 <= j < i ==> copy@[j]@ == exprs@[j]@,
        decreases exprs.len() - i,
    {
        copy.push(exprs[i].clone());
        i += 1;
    }
    assert(exprs_view(copy@) =~= exprs_view(exprs@));
    copy
}

/// A copy of `stmts`, statement by statement.
pub fn clone_stmts(stmts: &Vec<Stmt>) -> (copy: Vec<Stmt>)
    ensures
        stmts_view(copy@) == stmts_view(stmts@),
    decreases stmts,
{
    let mut copy: Vec<Stmt> = Vec::new();
    let mut i: usize = 0;
    while i < stmts.len()
        invariant
            i <= stmts.len(),
            copy.len() == i,
            forall|j: int| 0 <= j < i ==> copy@[j]@ == stmts@[j]@,
        decreases stmts.len() - i,
    {
        copy.push(stmts[i].clone());
        i += 1;
    }
    assert(stmts_view(copy@) =~= stmts_view(stmts@));
    copy
}

impl Clone for Expr {
    fn clone(&self) -> (copy: Self)
        ensures
            copy@ == self@,
        decreases self,
    {
        match self {
            Expr::Number(n) => Expr::Number(*n),
            Expr::String(s) => Expr::String(s.clone()),
            Expr::Ident(name) => Expr::Ident(name.clone()),
            Expr::Binary { left, op, right } => Expr::Binary {
                left: Box::new((&**left).clone()),
                op: *op,
                right: Box::new((&**right).clone()),
            },
            Expr::Call { name, args } => Expr::Call { name: name.clone(), args: clone_exprs(args) },
        }
    }
}

impl Clone for Stmt {
    fn clone(&self) -> (copy: Self)
        ensures
            copy@ == self@,
        decreases self,
    {
        match self {
            Stmt::Let(name, e) => Stmt::Let(name.clone(), e.clone()),
            Stmt::Expr(e) => Stmt::Expr(e.clone()),
            Stmt::FuncDef { name, params, body } => Stmt::FuncDef {
                name: name.clone(),
                params: clone_names(params),
                body: clone_stmts(body),
            },
            Stmt::Print(e) => Stmt::Print(e.clone()),
        }
    }
}

impl Clone for Program {
    fn clone(&self) -> (copy: Self)
        ensures
            copy@ == self@,
    {
        Program { statements: clone_stmts(&self.statements) }
    }
}

} // verus!
