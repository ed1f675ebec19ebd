//! The compiler gate: inline, fold constants, and require that only public
//! variables stay free.
use vstd::prelude::*;
use crate::ast::{name_in, Expr, Ident, Span};
use crate::declaration::Declaration;
use crate::env::lookup;
use crate::error::ASTError;
use crate::inliner::{inline_context, inlined, subst};
use crate::interpreter::{eval, Env, Value};
use crate::optimizer::{folded, lemma_optimize_preserves_eval, optimize};
use crate::program::{public_decls, Program};

verus! {

#[derive(Debug, PartialEq, Eq)]
pub enum CompilerError {
    /// The free variables, with their spans, that are not public.
    UnconstrainedVariable(Vec<(Ident, Span)>),
}

/// A program in normal form: an expression whose free variables are all
/// public, and the public variables in declaration order.
#[derive(Debug, PartialEq, Eq)]
pub struct CompiledProgram {
    pub public_vars: Vec<Ident>,
    pub expr: Expr,
}

/// Some identifier of `pubs` is `x`.
pub open spec fn is_public(pubs: Seq<Ident>, x: Seq<char>) -> bool {
    exists|i: int| 0 <= i < pubs.len() && pubs[i]@ == x
}

/// The names of the public variables, in declaration order.
pub open spec fn public_idents(d: Seq<Declaration>) -> Seq<Ident> {
    public_decls(d).map_values(|decl: Declaration| decl.binder_of().var_of())
}

/// The occurrences whose name is not public, in order.
pub open spec fn unconstrained(occ: Seq<(Ident, Span)>, pubs: Seq<Ident>) -> Seq<(Ident, Span)>
    decreases occ.len(),
{
    if occ.len() == 0 {
        occ
    } else {
        let rest = unconstrained(occ.drop_last(), pubs);
        if is_public(pubs, occ.last().0@) {
            rest
        } else {
            rest.push(occ.last())
        }
    }
}

/// The normal form of a program: inlined, then folded.
pub open spec fn normal_form(p: Program) -> Expr {
    folded(inlined(p))
}

impl CompiledProgram {
    /// Every free variable of the expression is public.
    pub open spec fn wf(&self) -> bool {
        forall|x: Seq<char>| #[trigger]
            self.expr.free_vars().contains(x) ==> is_public(self.public_vars@, x)
    }
}

fn is_public_exec(pubs: &Vec<Ident>, x: &Ident) -> (r: bool)
    ensures
        r == is_public(pubs@, x@),
{
    let mut i: usize = 0;
    while i < pubs.len()
        invariant
            i <= pubs@.len(),
            forall|j: int| 0 <= j < i ==> pubs@[j]@ != x@,
        decreases pubs@.len() - i,
    {
        if pubs[i].same(x) {
            return true;
        }
        i = i + 1;
    }
    false
}

/// Fails with the free variables of `expr` that are not public.
fn assert_normal_form(public_vars: &Vec<Ident>, expr: &Expr) -> (r: Result<(), CompilerError>)
    ensures
        r is Ok <==> forall|x: Seq<char>| #[trigger]
            expr.free_vars().contains(x) ==> is_public(public_vars@, x),
        r matches Err(CompilerError::UnconstrainedVariable(v)) ==> v@ == unconstrained(
            expr.occurrences(),
            public_vars@,
        ),
{
    let vars = expr.variables();
    let mut out: Vec<(Ident, Span)> = Vec::new();
    let mut i: usize = 0;
    while i < vars.len()
        invariant
            i <= vars@.len(),
            out@ == unconstrained(vars@.subrange(0, i as int), public_vars@),
            out@.len() == 0 <==> forall|k: int| 0 <= k < i ==> is_public(public_vars@, #[trigger] vars@[k].0@),
        decreases vars@.len() - i,
    {
        assert(vars@.subrange(0, i + 1).drop_last() =~= vars@.subrange(0, i as int));
        if !is_public_exec(public_vars, &vars[i].0) {
            out.push((vars[i].0.copy(), vars[i].1));
        }
        i = i + 1;
    }
    assert(vars@.subrange(0, vars@.len() as int) =~= vars@);
    proof {
        expr.lemma_free_vars_occurrences();
        if out@.len() == 0 {
            assert forall|x: Seq<char>| #[trigger] expr.free_vars().contains(x) implies is_public(
                public_vars@,
                x,
            ) by {
                let k = choose|k: int| 0 <= k < vars@.len() && vars@[k].0@ == x;
            }
        } else {
            let k = choose|k: int| 0 <= k < vars@.len() && !is_public(public_vars@, #[trigger] vars@[k].0@);
            assert(name_in(expr.occurrences(), vars@[k].0@));
            assert(expr.free_vars().contains(vars@[k].0@));
        }
    }
    if out.len() == 0 {
        Ok(())
    } else {
        Err(CompilerError::UnconstrainedVariable(out))
    }
}

/// Compiles a program to normal form: substitutes the `let` bindings, folds
/// constants, and checks that only public variables remain free.
pub fn compile(program: Program) -> (r: Result<CompiledProgram, CompilerError>)
    ensures
        r is Ok <==> forall|x: Seq<char>| #[trigger]
            normal_form(program).free_vars().contains(x) ==> is_public(
                public_idents(program.decls@),
                x,
            ),
        r matches Ok(cp) ==> cp.expr == normal_form(program) && cp.public_vars@ == public_idents(
            program.decls@,
        ) && cp.wf(),
        r matches Err(CompilerError::UnconstrainedVariable(v)) ==> v@ == unconstrained(
            normal_form(program).occurrences(),
            public_idents(program.decls@),
        ),
{
    let ghost p = program;
    let decls = program.public_variable_decls();
    let mut public_vars: Vec<Ident> = Vec::new();
    let mut i: usize = 0;
    while i < decls.len()
        invariant
            i <= decls@.len(),
            public_vars@ == decls@.subrange(0, i as int).map_values(
                |decl: Declaration| decl.binder_of().var_of(),
            ),
        decreases decls@.len() - i,
    {
        public_vars.push(decls[i].binder().var().copy());
        assert(public_vars@ =~= decls@.subrange(0, i + 1).map_values(
            |decl: Declaration| decl.binder_of().var_of(),
        ));
        i = i + 1;
    }
    assert(decls@.subrange(0, decls@.len() as int) =~= decls@);
    let expr = optimize(crate::inliner::inline(program));
    assert_normal_form(&public_vars, &expr)?;
    Ok(CompiledProgram { public_vars, expr })
}

/// The environment after the declarations: each `let` binds its name to the
/// value of its expression in the environment before it.
pub open spec fn program_env(d: Seq<Declaration>, env: Env) -> Env
    decreases d.len(),
{
    if d.len() == 0 {
        env
    } else {
        let e0 = program_env(d.drop_last(), env);
        match d.last() {
            Declaration::VarAssignment { binder, expr } => e0.insert(
                binder.var_of()@,
                eval(expr, e0),
            ),
            Declaration::PublicVar { .. } => e0,
        }
    }
}

/// The value of a program whose free names take their values from `env`.
pub open spec fn program_value(p: Program, env: Env) -> Result<Value, ASTError> {
    eval(p.expr, program_env(p.decls@, env))
}

/// Both succeed with the same value, or both fail.
pub open spec fn same_outcome(a: Result<Value, ASTError>, b: Result<Value, ASTError>) -> bool {
    &&& (a is Ok <==> b is Ok)
    &&& a is Ok ==> a == b
}

/// Each name bound in `s` evaluates under `w` as `env` has it, and every
/// other name has in `env` what it has in `w`.
spec fn related(s: Seq<(Ident, Expr)>, env: Env, w: Env) -> bool {
    forall|x: Seq<char>|
        #![trigger lookup(s, x)]
        #![trigger env.contains_key(x)]
        {
            &&& lookup(s, x) is Some ==> env.contains_key(x) && same_outcome(
                eval(lookup(s, x).unwrap(), w),
                env[x],
            )
            &&& lookup(s, x) is None ==> (env.contains_key(x) == w.contains_key(x) && (
            w.contains_key(x) ==> env[x] == w[x]))
        }
}

proof fn lemma_subst_eval(e: Expr, s: Seq<(Ident, Expr)>, env: Env, w: Env)
    requires
        related(s, env, w),
    ensures
        same_outcome(eval(subst(e, s), w), eval(e, env)),
    decreases e,
{
    match e {
        Expr::Literal { .. } => {},
        Expr::Variable { value, .. } => {
            assert(lookup(s, value@) is Some || lookup(s, value@) is None);
        },
        Expr::UnaryOp { expr, .. } => {
            lemma_subst_eval(*expr, s, env, w);
        },
        Expr::BinOp { lhs, rhs, .. } => {
            lemma_subst_eval(*lhs, s, env, w);
            lemma_subst_eval(*rhs, s, env, w);
        },
        Expr::IfThenElse { cond, _then, _else, .. } => {
            lemma_subst_eval(*cond, s, env, w);
            lemma_subst_eval(*_then, s, env, w);
            lemma_subst_eval(*_else, s, env, w);
        },
    }
}

proof fn lemma_context_related(d: Seq<Declaration>, w: Env)
    ensures
        related(inline_context(d), program_env(d, w), w),
    decreases d.len(),
{
    if d.len() > 0 {
        lemma_context_related(d.drop_last(), w);
        let s = inline_context(d.drop_last());
        let env = program_env(d.drop_last(), w);
        match d.last() {
            Declaration::VarAssignment { binder, expr } => {
                lemma_subst_eval(expr, s, env, w);
                let s2 = s.push((binder.var_of(), subst(expr, s)));
                let env2 = env.insert(binder.var_of()@, eval(expr, env));
                assert(inline_context(d) == s2);
                assert(program_env(d, w) == env2);
                assert forall|x: Seq<char>|
                    #![trigger lookup(s2, x)]
                    #![trigger env2.contains_key(x)]
                    {
                        &&& lookup(s2, x) is Some ==> env2.contains_key(x) && same_outcome(
                            eval(lookup(s2, x).unwrap(), w),
                            env2[x],
                        )
                        &&& lookup(s2, x) is None ==> (env2.contains_key(x) == w.contains_key(x)
                            && (w.contains_key(x) ==> env2[x] == w[x]))
                    } by {
                    assert(s2.drop_last() == s);
                    assert(lookup(s, x) is Some || lookup(s, x) is None);
                }
            },
            Declaration::PublicVar { .. } => {},
        }
    }
}

/// Compiling keeps the meaning: in every environment, the normal form of a
/// program succeeds exactly when the program does, with the same value. (Spans
/// inside an error may differ, since substituted names carry the spans of
/// their definitions.)
pub proof fn lemma_compile_preserves_value(p: Program, env: Env)
    ensures
        same_outcome(eval(normal_form(p), env), program_value(p, env)),
{
    lemma_optimize_preserves_eval(inlined(p), env);
    lemma_context_related(p.decls@, env);
    lemma_subst_eval(p.expr, inline_context(p.decls@), program_env(p.decls@, env), env);
}

} // verus!
