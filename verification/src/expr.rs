//! Converter expressions: how the value of a new field is computed from
//! the fields it is declared to come from.

use vstd::prelude::*;
use crate::instance::Instance;
use crate::model::EvalError;
use crate::text::{int_text, int_to_text};
use crate::value::{Datum, DatumView};
use vstd::string::StringExecFns;

verus! {

/// An expression over the declared source fields of a rule.
#[derive(Debug, PartialEq, Eq)]
pub enum Expr {
    /// A constant.
    Literal(Datum),
    /// The value of a source field.
    Field(String),
    /// The sum of two integers.
    Sum(Box<Expr>, Box<Expr>),
    /// The text form of an integer, a boolean, a real number or a text.
    ToText(Box<Expr>),
    /// An integer or a real number as a real number.
    ToReal(Box<Expr>),
}

/// The mathematical content of an [`Expr`].
pub ghost enum ExprView {
    Literal(DatumView),
    Field(Seq<char>),
    Sum(Box<ExprView>, Box<ExprView>),
    ToText(Box<ExprView>),
    ToReal(Box<ExprView>),
}

/// The content of an expression.
pub open spec fn expr_view(e: Expr) -> ExprView
    decreases e,
{
    match e {
        Expr::Literal(v) => ExprView::Literal(v@),
        Expr::Field(name) => ExprView::Field(name@),
        Expr::Sum(a, b) => ExprView::Sum(Box::new(expr_view(*a)), Box::new(expr_view(*b))),
        Expr::ToText(a) => ExprView::ToText(Box::new(expr_view(*a))),
        Expr::ToReal(a) => ExprView::ToReal(Box::new(expr_view(*a))),
    }
}

impl View for Expr {
    type V = ExprView;

    open spec fn view(&self) -> ExprView {
        expr_view(*self)
    }
}

/// The sum of two values: an integer where both are integers and the sum
/// fits in 64 bits.
pub open spec fn sum_of(x: DatumView, y: DatumView) -> Result<DatumView, EvalError> {
    match (x, y) {
        (DatumView::Int(a), DatumView::Int(b)) => if i64::MIN <= a + b <= i64::MAX {
            Ok(DatumView::Int(a + b))
        } else {
            Err(EvalError::Overflow)
        },
        _ => Err(EvalError::NotInteger),
    }
}

/// The text form of a value. Lists, records and null have none.
pub open spec fn text_of(x: DatumView) -> Result<DatumView, EvalError> {
    match x {
        DatumView::Int(n) => Ok(DatumView::Text(int_text(n))),
        DatumView::Bool(b) => Ok(DatumView::Text(if b { "true"@ } else { "false"@ })),
        DatumView::Real(t) => Ok(DatumView::Text(t)),
        DatumView::Text(t) => Ok(DatumView::Text(t)),
        _ => Err(EvalError::NotPrintable),
    }
}

/// A number as a real number: a real number as it is, an integer as its
/// decimal text with one zero after the point. Nothing else is a number.
pub open spec fn real_of(x: DatumView) -> Result<DatumView, EvalError> {
    match x {
        DatumView::Int(n) => Ok(DatumView::Real(int_text(n) + ".0"@)),
        DatumView::Real(t) => Ok(DatumView::Real(t)),
        _ => Err(EvalError::NotNumber),
    }
}

/// What an expression evaluates to when its source fields are bound as the
/// environment says. The left operand of a sum is evaluated first.
pub open spec fn eval_spec(e: ExprView, env: Map<Seq<char>, DatumView>) -> Result<
    DatumView,
    EvalError,
>
    decreases e,
{
    match e {
        ExprView::Literal(v) => Ok(v),
        ExprView::Field(name) => if env.contains_key(name) {
            Ok(env[name])
        } else {
            Err(EvalError::Unbound)
        },
        ExprView::Sum(a, b) => match eval_spec(*a, env) {
            Err(e) => Err(e),
            Ok(x) => match eval_spec(*b, env) {
                Err(e) => Err(e),
                Ok(y) => sum_of(x, y),
            },
        },
        ExprView::ToText(a) => match eval_spec(*a, env) {
            Err(e) => Err(e),
            Ok(x) => text_of(x),
        },
        ExprView::ToReal(a) => match eval_spec(*a, env) {
            Err(e) => Err(e),
            Ok(x) => real_of(x),
        },
    }
}

/// Whether a result is what its description says.
pub open spec fn same_outcome(r: Result<Datum, EvalError>, s: Result<DatumView, EvalError>) -> bool {
    match r {
        Ok(v) => s == Ok::<DatumView, EvalError>(v@),
        Err(e) => s == Err::<DatumView, EvalError>(e),
    }
}

fn add_values(x: &Datum, y: &Datum) -> (r: Result<Datum, EvalError>)
    ensures
        same_outcome(r, sum_of(x@, y@)),
{
    match (x, y) {
        (Datum::Int(a), Datum::Int(b)) => match a.checked_add(*b) {
            Some(c) => Ok(Datum::Int(c)),
            None => Err(EvalError::Overflow),
        },
        _ => Err(EvalError::NotInteger),
    }
}

fn text_value(x: &Datum) -> (r: Result<Datum, EvalError>)
    ensures
        same_outcome(r, text_of(x@)),
{
    match x {
        Datum::Int(n) => Ok(Datum::Text(int_to_text(*n))),
        Datum::Bool(b) => Ok(
            Datum::Text(
                if *b {
                    String::from_str("true")
                } else {
                    String::from_str("false")
                },
            ),
        ),
        Datum::Real(t) => Ok(Datum::Text(t.clone())),
        Datum::Text(t) => Ok(Datum::Text(t.clone())),
        _ => Err(EvalError::NotPrintable),
    }
}

fn real_value(x: &Datum) -> (r: Result<Datum, EvalError>)
    ensures
        same_outcome(r, real_of(x@)),
{
    match x {
        Datum::Int(n) => {
            let mut t = int_to_text(*n);
            t.append(".0");
            Ok(Datum::Real(t))
        },
        Datum::Real(t) => Ok(Datum::Real(t.clone())),
        _ => Err(EvalError::NotNumber),
    }
}

impl Expr {
    /// Evaluates the expression with the fields of `env` bound to their
    /// values.
    pub fn eval(&self, env: &Instance) -> (r: Result<Datum, EvalError>)
        ensures
            same_outcome(r, eval_spec(self@, env@)),
        decreases self,
    {
        match self {
            Expr::Literal(v) => Ok(v.duplicate()),
            Expr::Field(name) => match env.get(name.as_str()) {
                Some(v) => Ok(v.duplicate()),
                None => Err(EvalError::Unbound),
            },
            Expr::Sum(a, b) => match a.eval(env) {
                Err(e) => Err(e),
                Ok(x) => match b.eval(env) {
                    Err(e) => Err(e),
                    Ok(y) => add_values(&x, &y),
                },
            },
            Expr::ToText(a) => match a.eval(env) {
                Err(e) => Err(e),
                Ok(x) => text_value(&x),
            },
            Expr::ToReal(a) => match a.eval(env) {
                Err(e) => Err(e),
                Ok(x) => real_value(&x),
            },
        }
    }
}

} // verus!
