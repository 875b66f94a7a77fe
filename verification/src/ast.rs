//! The abstract syntax tree: a closed set of expression node kinds, each
//! node owning its children, plus the double-dispatch visitor contract that
//! lets consumers traverse a tree without touching the node definitions.

use vstd::prelude::*;

use crate::token::Token;
use crate::token::TokenModel;
use crate::token::ValueModel;

pub use crate::token::Value;

verus! {

/// An expression node.
#[derive(PartialEq, Debug)]
pub enum Expr {
    Binary(Binary),
    Grouping(Grouping),
    Literal(Literal),
    Unary(Unary),
}

/// A binary operation: `left operator right`.
#[derive(PartialEq, Debug)]
pub struct Binary {
    pub left: Box<Expr>,
    pub operator: Token,
    pub right: Box<Expr>,
}

/// A parenthesized sub-expression.
#[derive(PartialEq, Debug)]
pub struct Grouping {
    pub expression: Box<Expr>,
}

/// A literal value.
#[derive(PartialEq, Debug)]
pub struct Literal {
    pub value: Value,
}

/// A prefix operation: `operator right`.
#[derive(PartialEq, Debug)]
pub struct Unary {
    pub operator: Token,
    pub right: Box<Expr>,
}

/// The mathematical model of an expression tree, over token and value
/// models.
pub enum ExprModel {
    Binary { left: Box<ExprModel>, operator: TokenModel, right: Box<ExprModel> },
    Grouping { expression: Box<ExprModel> },
    Literal { value: ValueModel },
    Unary { operator: TokenModel, right: Box<ExprModel> },
}

/// The model of a `Binary` node.
pub open spec fn binary_model(b: Binary) -> ExprModel
    decreases b,
{
    ExprModel::Binary {
        left: Box::new(expr_model(*b.left)),
        operator: b.operator@,
        right: Box::new(expr_model(*b.right)),
    }
}

/// The model of a `Grouping` node.
pub open spec fn grouping_model(g: Grouping) -> ExprModel
    decreases g,
{
    ExprModel::Grouping { expression: Box::new(expr_model(*g.expression)) }
}

/// The model of a `Literal` node.
pub open spec fn literal_model(l: Literal) -> ExprModel {
    ExprModel::Literal { value: l.value@ }
}

/// The model of a `Unary` node.
pub open spec fn unary_model(u: Unary) -> ExprModel
    decreases u,
{
    ExprModel::Unary { operator: u.operator@, right: Box::new(expr_model(*u.right)) }
}

/// The model of an expression tree.
pub open spec fn expr_model(e: Expr) -> ExprModel
    decreases e,
{
    match e {
        Expr::Binary(b) => binary_model(b),
        Expr::Grouping(g) => grouping_model(g),
        Expr::Literal(l) => literal_model(l),
        Expr::Unary(u) => unary_model(u),
    }
}

impl View for Expr {
    type V = ExprModel;

    open spec fn view(&self) -> ExprModel {
        expr_model(*self)
    }
}

/// The visitor contract: one handler per node kind.  `visits` is the
/// consumer's own statement of what its handlers compute; every handler
/// promises that its result satisfies `visits` for the node it was given, so
/// `Expr::accept` can promise the same for any tree and any visitor.
pub trait Visitor<T> {
    /// The relation between a node (as a model) and a result this visitor
    /// may return for it.
    spec fn visits(&self, e: ExprModel, r: T) -> bool;

    fn visit_binary(&self, binary: &Binary) -> (r: T)
        ensures
            self.visits(binary_model(*binary), r),
    ;

    fn visit_grouping(&self, grouping: &Grouping) -> (r: T)
        ensures
            self.visits(grouping_model(*grouping), r),
    ;

    fn visit_literal(&self, literal: &Literal) -> (r: T)
        ensures
            self.visits(literal_model(*literal), r),
    ;

    fn visit_unary(&self, unary: &Unary) -> (r: T)
        ensures
            self.visits(unary_model(*unary), r),
    ;
}

impl Expr {
    /// Double dispatch: hands this node to the visitor's handler for its
    /// kind.  No side effect of its own; the behaviour is entirely the
    /// visitor's, as its `visits` relation states it.
    pub fn accept<T, V: Visitor<T>>(&self, visitor: &V) -> (r: T)
        ensures
            visitor.visits(expr_model(*self), r),
    {
        match self {
            Expr::Binary(binary) => visitor.visit_binary(binary),
            Expr::Grouping(grouping) => visitor.visit_grouping(grouping),
            Expr::Literal(literal) => visitor.visit_literal(literal),
            Expr::Unary(unary) => visitor.visit_unary(unary),
        }
    }
}

impl Binary {
    /// Builds a binary node as an expression.
    pub fn new(left: Box<Expr>, operator: Token, right: Box<Expr>) -> (e: Expr)
        ensures
            expr_model(e) == (ExprModel::Binary {
                left: Box::new(expr_model(*left)),
                operator: operator@,
                right: Box::new(expr_model(*right)),
            }),
    {
        Expr::Binary(Binary { left, operator, right })
    }
}

impl Grouping {
    /// Builds a grouping node as an expression.
    pub fn new(expression: Box<Expr>) -> (e: Expr)
        ensures
            expr_model(e) == (ExprModel::Grouping { expression: Box::new(expr_model(*expression)) }),
    {
        Expr::Grouping(Grouping { expression })
    }
}

impl Literal {
    /// Builds a literal node as an expression.
    pub fn new(value: Value) -> (e: Expr)
        ensures
            expr_model(e) == (ExprModel::Literal { value: value@ }),
    {
        Expr::Literal(Literal { value })
    }
}

impl Unary {
    /// Builds a unary node as an expression.
    pub fn new(operator: Token, right: Box<Expr>) -> (e: Expr)
        ensures
            expr_model(e) == (ExprModel::Unary {
                operator: operator@,
                right: Box::new(expr_model(*right)),
            }),
    {
        Expr::Unary(Unary { operator, right })
    }
}

} // verus!
