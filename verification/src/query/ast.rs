//! The syntax tree of a query.

use vstd::prelude::*;
use crate::value::{Value, ValueV};

verus! {

/// A comparison operator.
#[derive(Debug, Clone, Copy, PartialEq, Eq, Structural)]
pub enum CompareOp {
    Eq,
    Ne,
    Lt,
    Le,
    Gt,
    Ge,
}

/// A query expression.
#[derive(Debug, PartialEq)]
pub enum Expr {
    /// field = value, field != value, field < value, etc.
    Compare { field: String, op: CompareOp, value: Value },
    /// field between [start, end]
    Between { field: String, start: Value, end: Value },
    /// field contains value (for arrays)
    Contains { field: String, value: Value },
    /// field in [val1, val2, ...]
    In { field: String, values: Vec<Value> },
    /// text ~ "pattern" (body text search)
    TextSearch { pattern: String },
    /// expr AND expr
    And(Box<Expr>, Box<Expr>),
    /// expr OR expr
    Or(Box<Expr>, Box<Expr>),
    /// NOT expr
    Not(Box<Expr>),
}

/// The content of a query expression.
pub ghost enum ExprV {
    Compare { field: Seq<char>, op: CompareOp, value: ValueV },
    Between { field: Seq<char>, start: ValueV, end: ValueV },
    Contains { field: Seq<char>, value: ValueV },
    In { field: Seq<char>, values: Seq<ValueV> },
    TextSearch { pattern: Seq<char> },
    And(Box<ExprV>, Box<ExprV>),
    Or(Box<ExprV>, Box<ExprV>),
    Not(Box<ExprV>),
}

/// The contents of a list of values.
pub open spec fn values_view(v: Seq<Value>) -> Seq<ValueV> {
    Seq::new(v.len(), |i: int| v[i]@)
}

/// The content of a query expression.
pub open spec fn expr_view(e: Expr) -> ExprV
    decreases e,
{
    match e {
        Expr::Compare { field, op, value } => ExprV::Compare { field: field@, op, value: value@ },
        Expr::Between { field, start, end } => ExprV::Between {
            field: field@,
            start: start@,
            end: end@,
        },
        Expr::Contains { field, value } => ExprV::Contains { field: field@, value: value@ },
        Expr::In { field, values } => ExprV::In { field: field@, values: values_view(values@) },
        Expr::TextSearch { pattern } => ExprV::TextSearch { pattern: pattern@ },
        Expr::And(l, r) => ExprV::And(Box::new(expr_view(*l)), Box::new(expr_view(*r))),
        Expr::Or(l, r) => ExprV::Or(Box::new(expr_view(*l)), Box::new(expr_view(*r))),
        Expr::Not(x) => ExprV::Not(Box::new(expr_view(*x))),
    }
}

impl View for Expr {
    type V = ExprV;

    open spec fn view(&self) -> ExprV {
        expr_view(*self)
    }
}

} // verus!
