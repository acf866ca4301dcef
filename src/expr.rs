use vstd::prelude::*;

verus! {

/// A node of the expression tree. Each node owns its children.
#[derive(Debug, PartialEq)]
pub enum Expression {
    Number(i64),
    Increment(Box<Expression>),
    Decrement(Box<Expression>),
    Identifier(String),
    /// `let name = value; body`
    Let(String, Box<Expression>, Box<Expression>),
}

/// The mathematical model of an expression: names are character sequences.
pub ghost enum ExprModel {
    Number(i64),
    Increment(Box<ExprModel>),
    Decrement(Box<ExprModel>),
    Identifier(Seq<char>),
    Let(Seq<char>, Box<ExprModel>, Box<ExprModel>),
}

pub open spec fn expr_model(e: Expression) -> ExprModel
    decreases e,
{
    match e {
        Expression::Number(v) => ExprModel::Number(v),
        Expression::Increment(inner) => ExprModel::Increment(Box::new(expr_model(*inner))),
        Expression::Decrement(inner) => ExprModel::Decrement(Box::new(expr_model(*inner))),
        Expression::Identifier(name) => ExprModel::Identifier(name@),
        Expression::Let(name, value, body) => ExprModel::Let(
            name@,
            Box::new(expr_model(*value)),
            Box::new(expr_model(*body)),
        ),
    }
}

impl View for Expression {
    type V = ExprModel;

    open spec fn view(&self) -> ExprModel {
        expr_model(*self)
    }
}

/// The number of `let` bindings in an expression.
pub open spec fn let_count(e: ExprModel) -> nat
    decreases e,
{
    match e {
        ExprModel::Number(_) => 0,
        ExprModel::Increment(inner) => let_count(*inner),
        ExprModel::Decrement(inner) => let_count(*inner),
        ExprModel::Identifier(_) => 0,
        ExprModel::Let(_, value, body) => 1 + let_count(*value) + let_count(*body),
    }
}

} // verus!
