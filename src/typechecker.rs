//! The two-type discipline: integers (field elements) and booleans.
use vstd::prelude::*;
use crate::ast::{Expr, Ident, Literal, Opcode, Span, UOpcode};
use crate::env::{find_last, lookup};

verus! {

#[derive(Debug, PartialEq, Eq, Structural, Copy, Clone, Hash)]
pub enum Ty {
    Field,
    Boolean,
}

/// A type error: the span that demands a type, that type, the span that
/// supplies one, and the type it supplies.
#[derive(Debug, PartialEq, Eq)]
pub enum TypeError {
    UndefinedVariable(Span, Ident),
    TypeMismatch(Span, Ty, Span, Ty),
}

/// The types of names; the latest entry for a name counts.
pub struct TypeContext {
    pub context: Vec<(Ident, Ty)>,
}

impl TypeContext {
    pub fn new() -> (r: TypeContext)
        ensures
            r.context@ == Seq::<(Ident, Ty)>::empty(),
    {
        TypeContext { context: Vec::new() }
    }

    pub fn insert(&mut self, name: Ident, ty: Ty)
        ensures
            final(self).context@ == old(self).context@.push((name, ty)),
    {
        self.context.push((name, ty));
    }

    pub fn get(&self, name: &Ident) -> (r: Option<Ty>)
        ensures
            r == lookup(self.context@, name@),
    {
        match find_last(&self.context, name) {
            Some(i) => Some(self.context[i].1),
            None => None,
        }
    }
}

/// The type an operator gives when both operands have the types it asks for;
/// otherwise the mismatch, blaming the left operand first.
pub open spec fn binop_type(ann: Span, op: Opcode, ls: Span, l: Ty, rs: Span, r: Ty) -> Result<
    Ty,
    TypeError,
> {
    let (want, give) = match op {
        Opcode::And | Opcode::Or => (Ty::Boolean, Ty::Boolean),
        Opcode::Eq => (Ty::Field, Ty::Boolean),
        _ => (Ty::Field, Ty::Field),
    };
    if l != want {
        Err(TypeError::TypeMismatch(ann, want, ls, l))
    } else if r != want {
        Err(TypeError::TypeMismatch(ann, want, rs, r))
    } else {
        Ok(give)
    }
}

/// The type of `e` in `ctx`, or the first error, children left to right.
pub open spec fn type_of(e: Expr, ctx: Seq<(Ident, Ty)>) -> Result<Ty, TypeError>
    decreases e,
{
    match e {
        Expr::Literal { value, .. } => match value {
            Literal::Field(_) => Ok(Ty::Field),
            Literal::Boolean(_) => Ok(Ty::Boolean),
        },
        Expr::Variable { ann, value } => match lookup(ctx, value@) {
            Some(t) => Ok(t),
            None => Err(TypeError::UndefinedVariable(ann, value)),
        },
        Expr::UnaryOp { ann, expr, .. } => match type_of(*expr, ctx) {
            Err(err) => Err(err),
            Ok(Ty::Field) => Ok(Ty::Field),
            Ok(t) => Err(TypeError::TypeMismatch(ann, Ty::Field, expr.ann_of(), t)),
        },
        Expr::BinOp { ann, lhs, op, rhs } => match type_of(*lhs, ctx) {
            Err(err) => Err(err),
            Ok(l) => match type_of(*rhs, ctx) {
                Err(err) => Err(err),
                Ok(r) => binop_type(ann, op, lhs.ann_of(), l, rhs.ann_of(), r),
            },
        },
        Expr::IfThenElse { ann, cond, _then, _else } => match type_of(*cond, ctx) {
            Err(err) => Err(err),
            Ok(c) => match type_of(*_then, ctx) {
                Err(err) => Err(err),
                Ok(t) => match type_of(*_else, ctx) {
                    Err(err) => Err(err),
                    Ok(f) => if c != Ty::Boolean {
                        Err(TypeError::TypeMismatch(ann, Ty::Boolean, cond.ann_of(), c))
                    } else if t != Ty::Field {
                        Err(TypeError::TypeMismatch(ann, Ty::Field, _then.ann_of(), t))
                    } else if f != Ty::Field {
                        Err(TypeError::TypeMismatch(ann, Ty::Field, _else.ann_of(), f))
                    } else {
                        Ok(Ty::Field)
                    },
                },
            },
        },
    }
}

fn ty_eq(a: Ty, b: Ty) -> (r: bool)
    ensures
        r == (a == b),
{
    match (a, b) {
        (Ty::Field, Ty::Field) => true,
        (Ty::Boolean, Ty::Boolean) => true,
        _ => false,
    }
}

impl Expr {
    /// The type of this expression in `context`.
    pub fn typecheck(&self, context: &TypeContext) -> (r: Result<Ty, TypeError>)
        ensures
            r == type_of(*self, context.context@),
        decreases self,
    {
        match self {
            Expr::Literal { value, .. } => match value {
                Literal::Field(_) => Ok(Ty::Field),
                Literal::Boolean(_) => Ok(Ty::Boolean),
            },
            Expr::Variable { ann, value } => match context.get(value) {
                Some(t) => Ok(t),
                None => Err(TypeError::UndefinedVariable(*ann, value.copy())),
            },
            Expr::UnaryOp { ann, op, expr } => {
                let t = expr.typecheck(context)?;
                match (op, t) {
                    (UOpcode::Neg, Ty::Field) => Ok(Ty::Field),
                    (UOpcode::Neg, _) => Err(TypeError::TypeMismatch(*ann, Ty::Field, expr.ann(), t)),
                }
            },
            Expr::BinOp { ann, lhs, op, rhs } => {
                let l = lhs.typecheck(context)?;
                let r = rhs.typecheck(context)?;
                let (want, give) = match op {
                    Opcode::And | Opcode::Or => (Ty::Boolean, Ty::Boolean),
                    Opcode::Eq => (Ty::Field, Ty::Boolean),
                    _ => (Ty::Field, Ty::Field),
                };
                if !ty_eq(l, want) {
                    Err(TypeError::TypeMismatch(*ann, want, lhs.ann(), l))
                } else if !ty_eq(r, want) {
                    Err(TypeError::TypeMismatch(*ann, want, rhs.ann(), r))
                } else {
                    Ok(give)
                }
            },
            Expr::IfThenElse { ann, cond, _then, _else } => {
                let c = cond.typecheck(context)?;
                let t = _then.typecheck(context)?;
                let f = _else.typecheck(context)?;
                if !ty_eq(c, Ty::Boolean) {
                    Err(TypeError::TypeMismatch(*ann, Ty::Boolean, cond.ann(), c))
                } else if !ty_eq(t, Ty::Field) {
                    Err(TypeError::TypeMismatch(*ann, Ty::Field, _then.ann(), t))
                } else if !ty_eq(f, Ty::Field) {
                    Err(TypeError::TypeMismatch(*ann, Ty::Field, _else.ann(), f))
                } else {
                    Ok(Ty::Field)
                }
            },
        }
    }
}

} // verus!
