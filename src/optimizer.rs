//! Recursive constant folding over integer literals.
use vstd::prelude::*;
use crate::ast::{Expr, Literal, Opcode, UOpcode};
use crate::interpreter::{apply_field_op, eval, field_op, neg_i32, Env};

verus! {

/// The folded form of `e`: negation and the four arithmetic operators on
/// integer literals become literals (carrying the span of the operator node);
/// every other node keeps its shape, with its children folded.
pub open spec fn folded(e: Expr) -> Expr
    decreases e,
{
    match e {
        Expr::Literal { .. } => e,
        Expr::Variable { .. } => e,
        Expr::UnaryOp { ann, op, expr } => {
            let c = folded(*expr);
            match c {
                Expr::Literal { value: Literal::Field(n), .. } => Expr::Literal {
                    ann,
                    value: Literal::Field(neg_i32(n)),
                },
                _ => Expr::UnaryOp { ann, op, expr: Box::new(c) },
            }
        },
        Expr::BinOp { ann, lhs, op, rhs } => {
            let l = folded(*lhs);
            let r = folded(*rhs);
            match (l, r) {
                (
                    Expr::Literal { value: Literal::Field(a), .. },
                    Expr::Literal { value: Literal::Field(b), .. },
                ) if field_op(op, a, b) is Some => Expr::Literal {
                    ann,
                    value: Literal::Field(field_op(op, a, b).unwrap()),
                },
                _ => Expr::BinOp { ann, lhs: Box::new(l), op, rhs: Box::new(r) },
            }
        },
        Expr::IfThenElse { ann, cond, _then, _else } => Expr::IfThenElse {
            ann,
            cond: Box::new(folded(*cond)),
            _then: Box::new(folded(*_then)),
            _else: Box::new(folded(*_else)),
        },
    }
}

/// Folds the constants of `expr`.
pub fn optimize(expr: Expr) -> (r: Expr)
    ensures
        r == folded(expr),
{
    fold_constants(expr)
}

fn fold_constants(expr: Expr) -> (r: Expr)
    ensures
        r == folded(expr),
    decreases expr,
{
    match expr {
        Expr::Literal { ann, value } => Expr::Literal { ann, value },
        Expr::Variable { ann, value } => Expr::Variable { ann, value },
        Expr::UnaryOp { ann, op, expr } => {
            let c = fold_constants(*expr);
            match c {
                Expr::Literal { value: Literal::Field(n), .. } => Expr::Literal {
                    ann,
                    value: Literal::Field(0i32.wrapping_sub(n)),
                },
                c => Expr::UnaryOp { ann, op, expr: Box::new(c) },
            }
        },
        Expr::BinOp { ann, lhs, op, rhs } => {
            let l = fold_constants(*lhs);
            let r = fold_constants(*rhs);
            let folded_value = match (&l, &r) {
                (
                    Expr::Literal { value: Literal::Field(a), .. },
                    Expr::Literal { value: Literal::Field(b), .. },
                ) => apply_field_op(op, *a, *b),
                _ => None,
            };
            match folded_value {
                Some(n) => Expr::Literal { ann, value: Literal::Field(n) },
                None => Expr::BinOp { ann, lhs: Box::new(l), op, rhs: Box::new(r) },
            }
        },
        Expr::IfThenElse { ann, cond, _then, _else } => {
            let cond = fold_constants(*cond);
            let _then = fold_constants(*_then);
            let _else = fold_constants(*_else);
            Expr::IfThenElse {
                ann,
                cond: Box::new(cond),
                _then: Box::new(_then),
                _else: Box::new(_else),
            }
        },
    }
}

/// Folding is idempotent: folding a folded expression changes nothing.
pub proof fn lemma_optimize_idempotent(e: Expr)
    ensures
        folded(folded(e)) == folded(e),
    decreases e,
{
    match e {
        Expr::UnaryOp { ann, op, expr } => {
            lemma_optimize_idempotent(*expr);
        },
        Expr::BinOp { ann, lhs, op, rhs } => {
            lemma_optimize_idempotent(*lhs);
            lemma_optimize_idempotent(*rhs);
        },
        Expr::IfThenElse { ann, cond, _then, _else } => {
            lemma_optimize_idempotent(*cond);
            lemma_optimize_idempotent(*_then);
            lemma_optimize_idempotent(*_else);
        },
        _ => {},
    }
}

/// Folding keeps the value of an expression, errors included, in every
/// environment.
pub proof fn lemma_optimize_preserves_eval(e: Expr, env: Env)
    ensures
        eval(folded(e), env) == eval(e, env),
    decreases e,
{
    match e {
        Expr::UnaryOp { ann, op, expr } => {
            lemma_optimize_preserves_eval(*expr, env);
            lemma_fold_keeps_ann(*expr);
        },
        Expr::BinOp { ann, lhs, op, rhs } => {
            lemma_optimize_preserves_eval(*lhs, env);
            lemma_optimize_preserves_eval(*rhs, env);
            lemma_fold_keeps_ann(*lhs);
            lemma_fold_keeps_ann(*rhs);
        },
        Expr::IfThenElse { ann, cond, _then, _else } => {
            lemma_optimize_preserves_eval(*cond, env);
            lemma_optimize_preserves_eval(*_then, env);
            lemma_optimize_preserves_eval(*_else, env);
            lemma_fold_keeps_ann(*cond);
        },
        _ => {},
    }
}

/// Folding keeps the span at the root.
pub proof fn lemma_fold_keeps_ann(e: Expr)
    ensures
        folded(e).ann_of() == e.ann_of(),
{
}

} // verus!
