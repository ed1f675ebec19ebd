//! A direct tree-walking evaluator, the oracle for the compiled forms.
use vstd::prelude::*;
use crate::ast::{Expr, Ident, Literal, Opcode, Span, UOpcode};
use crate::env::{find_last, lookup};
use crate::error::ASTError;
use crate::typechecker::Ty;

verus! {

/// A runtime value: a 32-bit signed integer or a boolean.
#[derive(Debug, PartialEq, Eq, Structural, Copy, Clone)]
pub enum Value {
    Field(i32),
    Boolean(bool),
}

pub open spec fn ty_of(v: Value) -> Ty {
    match v {
        Value::Field(_) => Ty::Field,
        Value::Boolean(_) => Ty::Boolean,
    }
}

pub open spec fn literal_value(l: Literal) -> Value {
    match l {
        Literal::Field(n) => Value::Field(n),
        Literal::Boolean(b) => Value::Boolean(b),
    }
}

/// `a` to the power `k`, wrapping at the bounds of `i32`.
pub open spec fn pow_wrapping(a: i32, k: nat) -> i32
    decreases k,
{
    if k == 0 {
        1
    } else {
        a.wrapping_mul(pow_wrapping(a, (k - 1) as nat))
    }
}

/// Exponentiation on `i32`: wrapping, and zero for a negative exponent.
pub open spec fn pow_i32(a: i32, b: i32) -> i32 {
    if b < 0 {
        0
    } else {
        pow_wrapping(a, b as nat)
    }
}

/// Relies on `i32::wrapping_pow`: the power, reduced into `i32` by wrapping.
#[verifier::external_body]
fn wrapping_pow_i32(a: i32, k: u32) -> (r: i32)
    ensures
        r == pow_wrapping(a, k as nat),
{
    a.wrapping_pow(k)
}

/// Exponentiation on `i32` as [`pow_i32`] states it.
pub fn pow_field(a: i32, b: i32) -> (r: i32)
    ensures
        r == pow_i32(a, b),
{
    if b < 0 {
        0
    } else {
        wrapping_pow_i32(a, b as u32)
    }
}

pub open spec fn neg_i32(n: i32) -> i32 {
    0i32.wrapping_sub(n)
}

/// The integer operation of an arithmetic opcode; `None` for the others.
pub open spec fn field_op(op: Opcode, a: i32, b: i32) -> Option<i32> {
    match op {
        Opcode::Add => Some(a.wrapping_add(b)),
        Opcode::Sub => Some(a.wrapping_sub(b)),
        Opcode::Mul => Some(a.wrapping_mul(b)),
        Opcode::Pow => Some(pow_i32(a, b)),
        _ => None,
    }
}

/// Applies an arithmetic opcode to two integers.
pub fn apply_field_op(op: Opcode, a: i32, b: i32) -> (r: Option<i32>)
    ensures
        r == field_op(op, a, b),
{
    match op {
        Opcode::Add => Some(a.wrapping_add(b)),
        Opcode::Sub => Some(a.wrapping_sub(b)),
        Opcode::Mul => Some(a.wrapping_mul(b)),
        Opcode::Pow => Some(pow_field(a, b)),
        _ => None,
    }
}

pub type Env = Map<Seq<char>, Result<Value, ASTError>>;

/// The result of a binary operator on two values; `ann` is the span of the
/// operator node, `ls` and `rs` those of its operands.
pub open spec fn binop_value(ann: Span, op: Opcode, ls: Span, l: Value, rs: Span, r: Value) -> Result<
    Value,
    ASTError,
> {
    match op {
        Opcode::And | Opcode::Or => match (l, r) {
            (Value::Boolean(a), Value::Boolean(b)) => Ok(
                Value::Boolean(
                    if op == Opcode::And {
                        a && b
                    } else {
                        a || b
                    },
                ),
            ),
            (Value::Boolean(_), _) => Err(ASTError::TypeMismatch(ann, Ty::Boolean, rs, ty_of(r))),
            _ => Err(ASTError::TypeMismatch(ann, Ty::Boolean, ls, ty_of(l))),
        },
        _ => match (l, r) {
            (Value::Field(a), Value::Field(b)) => if op == Opcode::Eq {
                Ok(Value::Boolean(a == b))
            } else {
                Ok(Value::Field(field_op(op, a, b).unwrap()))
            },
            (Value::Field(_), _) => Err(ASTError::TypeMismatch(ann, Ty::Field, rs, ty_of(r))),
            _ => Err(ASTError::TypeMismatch(ann, Ty::Field, ls, ty_of(l))),
        },
    }
}

/// The value of `e` where each free name has the result that `env` gives it.
pub open spec fn eval(e: Expr, env: Env) -> Result<Value, ASTError>
    decreases e,
{
    match e {
        Expr::Literal { value, .. } => Ok(literal_value(value)),
        Expr::Variable { ann, value } => if env.contains_key(value@) {
            env[value@]
        } else {
            Err(ASTError::UnboundIdentifier(ann, value))
        },
        Expr::UnaryOp { ann, op, expr } => match eval(*expr, env) {
            Err(err) => Err(err),
            Ok(Value::Field(n)) => Ok(Value::Field(neg_i32(n))),
            Ok(v) => Err(ASTError::TypeMismatch(ann, Ty::Field, expr.ann_of(), ty_of(v))),
        },
        Expr::BinOp { ann, lhs, op, rhs } => match eval(*lhs, env) {
            Err(err) => Err(err),
            Ok(l) => match eval(*rhs, env) {
                Err(err) => Err(err),
                Ok(r) => binop_value(ann, op, lhs.ann_of(), l, rhs.ann_of(), r),
            },
        },
        Expr::IfThenElse { ann, cond, _then, _else } => match eval(*cond, env) {
            Err(err) => Err(err),
            Ok(Value::Boolean(true)) => eval(*_then, env),
            Ok(Value::Boolean(false)) => eval(*_else, env),
            Ok(v) => Err(ASTError::TypeMismatch(ann, Ty::Boolean, cond.ann_of(), ty_of(v))),
        },
    }
}

/// A witness: values for names, the latest entry for a name counting.
pub struct Context {
    pub context: Vec<(Ident, Value)>,
}

impl Context {
    /// The environment that evaluation sees.
    pub open spec fn env(&self) -> Env {
        Map::new(
            |x: Seq<char>| lookup(self.context@, x) is Some,
            |x: Seq<char>| Ok(lookup(self.context@, x).unwrap()),
        )
    }

    pub fn new() -> (r: Context)
        ensures
            r.context@ == Seq::<(Ident, Value)>::empty(),
    {
        Context { context: Vec::new() }
    }

    /// A context holding the given literal for each name.
    pub fn from_literals(entries: Vec<(Ident, Literal)>) -> (r: Context)
        ensures
            r.context@.len() == entries@.len(),
            forall|i: int|
                0 <= i < entries@.len() ==> r.context@[i] == (
                    entries@[i].0,
                    literal_value(entries@[i].1),
                ),
    {
        let mut context: Vec<(Ident, Value)> = Vec::new();
        let mut i: usize = 0;
        while i < entries.len()
            invariant
                i <= entries@.len(),
                context@.len() == i,
                forall|j: int|
                    0 <= j < i ==> context@[j] == (entries@[j].0, literal_value(entries@[j].1)),
            decreases entries@.len() - i,
        {
            let v = match entries[i].1 {
                Literal::Field(n) => Value::Field(n),
                Literal::Boolean(b) => Value::Boolean(b),
            };
            context.push((entries[i].0.copy(), v));
            i = i + 1;
        }
        Context { context }
    }

    pub fn insert(&mut self, name: Ident, value: Value)
        ensures
            final(self).context@ == old(self).context@.push((name, value)),
    {
        self.context.push((name, value));
    }

    pub fn get(&self, name: &Ident) -> (r: Option<Value>)
        ensures
            r == lookup(self.context@, name@),
    {
        match find_last(&self.context, name) {
            Some(i) => Some(self.context[i].1),
            None => None,
        }
    }
}

impl Value {
    /// Exponentiation of two integers; `None` unless both are integers.
    pub fn pow(self, rhs: Value) -> (r: Option<Value>)
        ensures
            r == (match (self, rhs) {
                (Value::Field(a), Value::Field(b)) => Some(Value::Field(pow_i32(a, b))),
                _ => None,
            }),
    {
        match (self, rhs) {
            (Value::Field(a), Value::Field(b)) => Some(Value::Field(pow_field(a, b))),
            _ => None,
        }
    }
}

fn binop_exec(ann: Span, op: Opcode, ls: Span, l: Value, rs: Span, r: Value) -> (res: Result<
    Value,
    ASTError,
>)
    ensures
        res == binop_value(ann, op, ls, l, rs, r),
{
    match op {
        Opcode::And | Opcode::Or => match (l, r) {
            (Value::Boolean(a), Value::Boolean(b)) => {
                let v = match op {
                    Opcode::And => a && b,
                    _ => a || b,
                };
                Ok(Value::Boolean(v))
            },
            (Value::Boolean(_), Value::Field(_)) => Err(
                ASTError::TypeMismatch(ann, Ty::Boolean, rs, Ty::Field),
            ),
            (Value::Field(_), _) => Err(ASTError::TypeMismatch(ann, Ty::Boolean, ls, Ty::Field)),
        },
        _ => match (l, r) {
            (Value::Field(a), Value::Field(b)) => match op {
                Opcode::Eq => Ok(Value::Boolean(a == b)),
                _ => match apply_field_op(op, a, b) {
                    Some(n) => Ok(Value::Field(n)),
                    None => Ok(Value::Field(0)),
                },
            },
            (Value::Field(_), Value::Boolean(_)) => Err(
                ASTError::TypeMismatch(ann, Ty::Field, rs, Ty::Boolean),
            ),
            (Value::Boolean(_), _) => Err(ASTError::TypeMismatch(ann, Ty::Field, ls, Ty::Boolean)),
        },
    }
}

/// Evaluates `expr` with the values that `context` gives its free names.
pub fn interpret(context: &Context, expr: &Expr) -> (r: Result<Value, ASTError>)
    ensures
        r == eval(*expr, context.env()),
    decreases expr,
{
    match expr {
        Expr::Literal { value, .. } => match value {
            Literal::Field(n) => Ok(Value::Field(*n)),
            Literal::Boolean(b) => Ok(Value::Boolean(*b)),
        },
        Expr::Variable { ann, value } => match context.get(value) {
            Some(v) => Ok(v),
            None => Err(ASTError::UnboundIdentifier(*ann, value.copy())),
        },
        Expr::UnaryOp { ann, op, expr: inner } => {
            let v = interpret(context, inner)?;
            match (op, v) {
                (UOpcode::Neg, Value::Field(n)) => Ok(Value::Field(0i32.wrapping_sub(n))),
                (UOpcode::Neg, Value::Boolean(_)) => Err(
                    ASTError::TypeMismatch(*ann, Ty::Field, inner.ann(), Ty::Boolean),
                ),
            }
        },
        Expr::BinOp { ann, lhs, op, rhs } => {
            let l = interpret(context, lhs)?;
            let r = interpret(context, rhs)?;
            binop_exec(*ann, *op, lhs.ann(), l, rhs.ann(), r)
        },
        Expr::IfThenElse { ann, cond, _then, _else } => {
            let c = interpret(context, cond)?;
            match c {
                Value::Boolean(true) => interpret(context, _then),
                Value::Boolean(false) => interpret(context, _else),
                Value::Field(_) => Err(
                    ASTError::TypeMismatch(*ann, Ty::Boolean, cond.ann(), Ty::Field),
                ),
            }
        },
    }
}

} // verus!
