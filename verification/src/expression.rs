//! Expressions that tags and filters evaluate against the runtime
//! context: literals and variable references.
use vstd::prelude::*;

use crate::context::scope_lookup;
use crate::context::Context;
use crate::value::Val;
use crate::value::Value;

verus! {

/// Model of an expression.
pub enum ExprV {
    Lit(Val),
    Var(Seq<char>),
}

/// A literal value or a variable reference, evaluated anew against the
/// context on every render.
#[derive(Debug)]
pub enum Expression {
    Literal(Value),
    Variable(String),
}

impl Clone for Expression {
    /// A copy with the same model.
    fn clone(&self) -> (r: Self)
        ensures
            r@ == self@,
    {
        match self {
            Expression::Literal(v) => Expression::Literal(v.clone()),
            Expression::Variable(n) => Expression::Variable(n.clone()),
        }
    }
}

impl View for Expression {
    type V = ExprV;

    open spec fn view(&self) -> ExprV {
        match self {
            Expression::Literal(v) => ExprV::Lit(v@),
            Expression::Variable(n) => ExprV::Var(n@),
        }
    }
}

/// What an expression evaluates to against a modelled scope stack: a
/// literal is itself; a variable is whatever the innermost binding
/// holds, or nil when unbound.
pub open spec fn eval_in(e: ExprV, scopes: Seq<Seq<(Seq<char>, Val)>>) -> Val {
    match e {
        ExprV::Lit(v) => v,
        ExprV::Var(name) => match scope_lookup(scopes, name) {
            Some(v) => v,
            None => Val::Nil,
        },
    }
}

/// What an expression evaluates to in a context.
pub open spec fn eval_of(e: ExprV, ctx: &Context) -> Val {
    eval_in(e, ctx@.scopes)
}

impl Expression {
    /// Evaluates this expression against the context.
    pub fn evaluate(&self, ctx: &Context) -> (r: Value)
        ensures
            r@ == eval_of(self@, ctx),
    {
        match self {
            Expression::Literal(v) => v.clone(),
            Expression::Variable(name) => match ctx.lookup(name) {
                Some(v) => v,
                None => Value::Nil,
            },
        }
    }
}

} // verus!
