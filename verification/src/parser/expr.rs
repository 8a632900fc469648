//! Expressions of SQL predicates.

use vstd::prelude::*;

use crate::algebra::TupleCtx;
use crate::algebra::iu::IURef;
use crate::parser::ast::{ColId, Query};

verus! {

/// An SQL expression: a tree whose leaves are constants and column references.
///
/// The parser writes column references by name; semantic analysis replaces
/// each of them by the IU it resolves to.
#[derive(Debug)]
pub enum Expression {
    /// String constant literal
    String(String),
    /// Column reference by name (e.g. "table.column" or "column")
    ColumnRef(ColId),
    /// Column reference resolved to an IU
    IURef(IURef),
    /// Binary operation between two sub-expressions
    BinaryExpr(Box<BinaryExpression>),
    /// Subquery expression (e.g. (SELECT ...))
    Subquery(Box<Query>),
}

/// Binary comparison operators.
#[derive(Copy, Clone, Debug, PartialEq, Eq, Structural)]
pub enum BinaryOperator {
    /// Equality (=)
    Eq,
    /// Less than or equal (<=)
    Leq,
    /// Greater than or equal (>=)
    Geq,
    /// Inequality (!=)
    Neq,
}

/// A binary expression: two operands and an operator.
#[derive(Debug)]
pub struct BinaryExpression {
    /// Left operand
    pub l: Expression,
    /// Right operand
    pub r: Expression,
    /// Binary operator
    pub op: BinaryOperator,
}

impl BinaryExpression {
    /// A binary expression wrapped in an expression.
    pub fn new(op: BinaryOperator, left: Expression, right: Expression) -> (e: Expression)
        ensures
            e == Expression::BinaryExpr(Box::new(BinaryExpression { l: left, r: right, op })),
    {
        Expression::BinaryExpr(Box::new(BinaryExpression { l: left, r: right, op }))
    }
}

/// The expressions whose code a tuple can give: a resolved column it holds,
/// or a constant.
pub open spec fn producible(e: Expression, ctx: TupleCtx) -> bool {
    match e {
        Expression::IURef(iu) => ctx.expr_of_spec(iu.id) is Some,
        Expression::String(_) => true,
        _ => false,
    }
}

/// The code of a producible expression's value in the tuple.
pub open spec fn produce_text(e: Expression, ctx: TupleCtx) -> Seq<char> {
    match e {
        Expression::IURef(iu) => ctx.expr_of_spec(iu.id)->Some_0,
        Expression::String(s) => "ValueRef::Integer("@ + s@ + ")"@,
        _ => Seq::empty(),
    }
}

impl Expression {
    /// Can the tuple give the code of the expression?
    pub fn producible_in(&self, ctx: &TupleCtx) -> (b: bool)
        ensures
            b == producible(*self, *ctx),
    {
        match self {
            Expression::IURef(iu) => ctx.expr_of(iu.id).is_some(),
            Expression::String(_) => true,
            _ => false,
        }
    }

    /// The code of the expression's value in the tuple: the code the tuple
    /// holds for a column, an integer constant for a constant.
    pub fn produce(&self, ctx: &TupleCtx) -> (code: String)
        requires
            producible(*self, *ctx),
        ensures
            code@ == produce_text(*self, *ctx),
    {
        match self {
            Expression::IURef(iu) => match ctx.expr_of(iu.id) {
                Some(c) => c,
                None => String::new(),
            },
            Expression::String(s) => {
                let mut code = String::from_str("ValueRef::Integer(");
                code.append(s.as_str());
                code.append(")");
                code
            },
            _ => String::new(),
        }
    }
}

} // verus!
