use vstd::prelude::*;

verus! {

broadcast use vstd::std_specs::vec::group_vec_axioms;

/// An expression tree of the little language: boolean and integer literals,
/// unary and binary operators, parenthesized blocks, and `if`/`else`.
/// Every node exclusively owns its children; the tree is immutable once built.
#[derive(Debug, PartialEq)]
pub enum Expr {
    Literal(Literal),
    Unary { op: UnaryOp, right: Box<Expr> },
    Binary { left: Box<Expr>, op: BinaryOp, right: Box<Expr> },
    Block(Vec<Expr>),
    If { condition: Box<Expr>, then_expr: Box<Expr>, else_expr: Option<Box<Expr>> },
}

#[derive(Clone, Debug, PartialEq)]
pub enum Literal {
    Bool(bool),
    Int(i64),
}

#[derive(Copy, Clone, Debug, PartialEq, Eq)]
pub enum UnaryOp {
    Not,
    Neg,
    Pos,
}

#[derive(Copy, Clone, Debug, PartialEq, Eq)]
pub enum BinaryOp {
    And,
    Or,
    Equal,
    NotEqual,
    Add,
    Sub,
    Mult,
    Div,
}

/// The mathematical model of an expression tree. It mirrors `Expr`, with a
/// `Seq` for a block's contents so that contracts can speak of it directly.
#[verifier::ext_equal]
pub enum SpecExpr {
    Literal(Literal),
    Unary { op: UnaryOp, right: Box<SpecExpr> },
    Binary { left: Box<SpecExpr>, op: BinaryOp, right: Box<SpecExpr> },
    Block(Seq<SpecExpr>),
    If { condition: Box<SpecExpr>, then_expr: Box<SpecExpr>, else_expr: Option<Box<SpecExpr>> },
}

impl View for Expr {
    type V = SpecExpr;

    open spec fn view(&self) -> SpecExpr
        decreases self,
    {
        match self {
            Expr::Literal(l) => SpecExpr::Literal(*l),
            Expr::Unary { op, right } => SpecExpr::Unary {
                op: *op,
                right: Box::new((**right).view()),
            },
            Expr::Binary { left, op, right } => SpecExpr::Binary {
                left: Box::new((**left).view()),
                op: *op,
                right: Box::new((**right).view()),
            },
            Expr::Block(v) => SpecExpr::Block(
                Seq::new(
                    v@.len(),
                    |i: int|
                        if 0 <= i < v@.len() {
                            v@[i].view()
                        } else {
                            arbitrary()
                        },
                ),
            ),
            Expr::If { condition, then_expr, else_expr } => SpecExpr::If {
                condition: Box::new((**condition).view()),
                then_expr: Box::new((**then_expr).view()),
                else_expr: match else_expr {
                    Some(e) => Some(Box::new((**e).view())),
                    None => None,
                },
            },
        }
    }
}

/// How many literal leaves an expression tree has.
pub open spec fn leaf_count(e: SpecExpr) -> int
    decreases e,
{
    match e {
        SpecExpr::Literal(_) => 1,
        SpecExpr::Unary { right, .. } => leaf_count(*right),
        SpecExpr::Binary { left, right, .. } => leaf_count(*left) + leaf_count(*right),
        SpecExpr::Block(es) => leaf_count_seq(es),
        SpecExpr::If { condition, then_expr, else_expr } => leaf_count(*condition) + leaf_count(
            *then_expr,
        ) + match else_expr {
            Some(e) => leaf_count(*e),
            None => 0,
        },
    }
}

/// How many literal leaves a sequence of expression trees has in total.
pub open spec fn leaf_count_seq(es: Seq<SpecExpr>) -> int
    decreases es,
{
    if es.len() == 0 {
        0
    } else {
        leaf_count(es[0]) + leaf_count_seq(es.subrange(1, es.len() as int))
    }
}

pub proof fn lemma_leaf_count_nonneg(e: SpecExpr)
    ensures
        0 <= leaf_count(e),
    decreases e,
{
    match e {
        SpecExpr::Literal(_) => {},
        SpecExpr::Unary { right, .. } => {
            lemma_leaf_count_nonneg(*right);
        },
        SpecExpr::Binary { left, right, .. } => {
            lemma_leaf_count_nonneg(*left);
            lemma_leaf_count_nonneg(*right);
        },
        SpecExpr::Block(es) => {
            lemma_leaf_count_seq_nonneg(es);
        },
        SpecExpr::If { condition, then_expr, else_expr } => {
            lemma_leaf_count_nonneg(*condition);
            lemma_leaf_count_nonneg(*then_expr);
            match else_expr {
                Some(x) => {
                    lemma_leaf_count_nonneg(*x);
                },
                None => {},
            }
        },
    }
}

pub proof fn lemma_leaf_count_seq_nonneg(es: Seq<SpecExpr>)
    ensures
        0 <= leaf_count_seq(es),
    decreases es,
{
    if es.len() > 0 {
        lemma_leaf_count_nonneg(es[0]);
        lemma_leaf_count_seq_nonneg(es.subrange(1, es.len() as int));
    }
}

impl Expr {
    pub fn bool(b: bool) -> (e: Self)
        ensures
            e@ == SpecExpr::Literal(Literal::Bool(b)),
    {
        Expr::Literal(Literal::Bool(b))
    }

    pub fn integer(i: i64) -> (e: Self)
        ensures
            e@ == SpecExpr::Literal(Literal::Int(i)),
    {
        Expr::Literal(Literal::Int(i))
    }

    pub fn unary(op: UnaryOp, right: Expr) -> (e: Self)
        ensures
            e@ == (SpecExpr::Unary { op, right: Box::new(right@) }),
    {
        Expr::Unary { op, right: Box::new(right) }
    }

    pub fn binary(left: Expr, op: BinaryOp, right: Expr) -> (e: Self)
        ensures
            e@ == (SpecExpr::Binary { left: Box::new(left@), op, right: Box::new(right@) }),
    {
        Expr::Binary { left: Box::new(left), op, right: Box::new(right) }
    }

    pub fn ifthen(cond: Expr, then_: Expr, else_: Option<Expr>) -> (e: Self)
        ensures
            e@ == (SpecExpr::If {
                condition: Box::new(cond@),
                then_expr: Box::new(then_@),
                else_expr: match else_ {
                    Some(x) => Some(Box::new(x@)),
                    None => None,
                },
            }),
    {
        Expr::If {
            condition: Box::new(cond),
            then_expr: Box::new(then_),
            else_expr: match else_ {
                Some(x) => Some(Box::new(x)),
                None => None,
            },
        }
    }
}

} // verus!
