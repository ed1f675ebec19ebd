//! Substitutes every `let` binding into the final expression.
use vstd::prelude::*;
use crate::ast::{Expr, Ident};
use crate::declaration::Declaration;
use crate::env::{find_last, lookup};
use crate::program::Program;

verus! {

/// `e` with each name bound in `s` replaced by its latest binding there; the
/// replacement keeps its own spans.
pub open spec fn subst(e: Expr, s: Seq<(Ident, Expr)>) -> Expr
    decreases e,
{
    match e {
        Expr::Literal { .. } => e,
        Expr::Variable { value, .. } => match lookup(s, value@) {
            Some(t) => t,
            None => e,
        },
        Expr::UnaryOp { ann, op, expr } => Expr::UnaryOp {
            ann,
            op,
            expr: Box::new(subst(*expr, s)),
        },
        Expr::BinOp { ann, lhs, op, rhs } => Expr::BinOp {
            ann,
            lhs: Box::new(subst(*lhs, s)),
            op,
            rhs: Box::new(subst(*rhs, s)),
        },
        Expr::IfThenElse { ann, cond, _then, _else } => Expr::IfThenElse {
            ann,
            cond: Box::new(subst(*cond, s)),
            _then: Box::new(subst(*_then, s)),
            _else: Box::new(subst(*_else, s)),
        },
    }
}

/// The bindings after the declarations: each `let` maps its name to its
/// expression with the earlier bindings substituted; public variables add
/// nothing.
pub open spec fn inline_context(d: Seq<Declaration>) -> Seq<(Ident, Expr)>
    decreases d.len(),
{
    if d.len() == 0 {
        Seq::empty()
    } else {
        let c = inline_context(d.drop_last());
        match d.last() {
            Declaration::VarAssignment { binder, expr } => c.push((binder.var_of(), subst(expr, c))),
            Declaration::PublicVar { .. } => c,
        }
    }
}

/// The final expression of `p` with every `let` substituted.
pub open spec fn inlined(p: Program) -> Expr {
    subst(p.expr, inline_context(p.decls@))
}

/// Bindings from names to inlined expressions.
pub struct Context {
    pub context: Vec<(Ident, Expr)>,
}

impl Context {
    pub fn new() -> (r: Context)
        ensures
            r.context@ == Seq::<(Ident, Expr)>::empty(),
    {
        Context { context: Vec::new() }
    }

    pub fn insert(&mut self, name: Ident, expr: Expr)
        ensures
            final(self).context@ == old(self).context@.push((name, expr)),
    {
        self.context.push((name, expr));
    }

    pub fn get(&self, name: &Ident) -> (r: Option<&Expr>)
        ensures
            r matches Some(e) ==> lookup(self.context@, name@) == Some(*e),
            r is None <==> lookup(self.context@, name@) is None,
    {
        match find_last(&self.context, name) {
            Some(i) => Some(&self.context[i].1),
            None => None,
        }
    }
}

/// Substitutes the bindings of `context` into `expr`.
pub fn inline_expr(context: &Context, expr: Expr) -> (r: Expr)
    ensures
        r == subst(expr, context.context@),
    decreases expr,
{
    match expr {
        Expr::Literal { ann, value } => Expr::Literal { ann, value },
        Expr::UnaryOp { ann, op, expr } => {
            let expr = inline_expr(context, *expr);
            Expr::UnaryOp { ann, op, expr: Box::new(expr) }
        },
        Expr::BinOp { ann, lhs, op, rhs } => {
            let lhs = inline_expr(context, *lhs);
            let rhs = inline_expr(context, *rhs);
            Expr::BinOp { ann, lhs: Box::new(lhs), op, rhs: Box::new(rhs) }
        },
        Expr::Variable { ann, value } => match context.get(&value) {
            Some(existing) => existing.copy(),
            None => Expr::Variable { ann, value },
        },
        Expr::IfThenElse { ann, cond, _then, _else } => {
            let cond = inline_expr(context, *cond);
            let _then = inline_expr(context, *_then);
            let _else = inline_expr(context, *_else);
            Expr::IfThenElse {
                ann,
                cond: Box::new(cond),
                _then: Box::new(_then),
                _else: Box::new(_else),
            }
        },
    }
}

/// Adds the binding of a `let`, inlined against the earlier ones.
pub fn inline_decl(context: Context, decl: Declaration) -> (r: Context)
    ensures
        r.context@ == match decl {
            Declaration::VarAssignment { binder, expr } => context.context@.push(
                (binder.var_of(), subst(expr, context.context@)),
            ),
            Declaration::PublicVar { .. } => context.context@,
        },
{
    let mut context = context;
    match decl {
        Declaration::VarAssignment { binder, expr } => {
            let expr = inline_expr(&context, expr);
            let name = binder.var().copy();
            context.insert(name, expr);
            context
        },
        Declaration::PublicVar { .. } => context,
    }
}

/// The final expression with every `let` binding substituted.
pub fn inline(program: Program) -> (r: Expr)
    ensures
        r == inlined(program),
{
    let Program { decls, expr } = program;
    let mut context = Context::new();
    let mut i: usize = 0;
    while i < decls.len()
        invariant
            i <= decls@.len(),
            context.context@ == inline_context(decls@.subrange(0, i as int)),
        decreases decls@.len() - i,
    {
        assert(decls@.subrange(0, i + 1).drop_last() =~= decls@.subrange(0, i as int));
        context = inline_decl(context, decls[i].copy());
        i = i + 1;
    }
    assert(decls@.subrange(0, decls@.len() as int) =~= decls@);
    inline_expr(&context, expr)
}

} // verus!
