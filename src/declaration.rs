//! Binders and declarations: `pub x: T;` and `let x = e;`.
use vstd::prelude::*;
use crate::ast::{name_in, synthetic_span, Expr, HasSourceLoc, Ident, Span};
use crate::typechecker::{type_of, Ty, TypeContext, TypeError};

verus! {

/// A name being bound, with the span of its occurrence and, where declared,
/// its type.
#[derive(Debug, PartialEq, Eq, Clone)]
pub enum Binder {
    VarBinder { ann: Span, var: Ident },
    TypedBinder { ann: Span, var: Ident, _type: Ty },
}

impl Binder {
    pub open spec fn var_of(&self) -> Ident {
        match self {
            Binder::VarBinder { var, .. } => *var,
            Binder::TypedBinder { var, .. } => *var,
        }
    }

    pub open spec fn ann_of(&self) -> Span {
        match self {
            Binder::VarBinder { ann, .. } => *ann,
            Binder::TypedBinder { ann, .. } => *ann,
        }
    }

    pub open spec fn cleared(&self) -> Binder {
        match self {
            Binder::VarBinder { var, .. } => Binder::VarBinder { ann: synthetic_span(), var: *var },
            Binder::TypedBinder { var, _type, .. } => Binder::TypedBinder {
                ann: synthetic_span(),
                var: *var,
                _type: *_type,
            },
        }
    }

    pub fn clear_annotations(self) -> (r: Binder)
        ensures
            r == self.cleared(),
    {
        match self {
            Binder::VarBinder { var, .. } => Binder::VarBinder { ann: Span::default(), var },
            Binder::TypedBinder { var, _type, .. } => Binder::TypedBinder {
                ann: Span::default(),
                var,
                _type,
            },
        }
    }

    pub fn var(&self) -> (r: &Ident)
        ensures
            *r == self.var_of(),
    {
        match self {
            Binder::VarBinder { var, .. } => var,
            Binder::TypedBinder { var, .. } => var,
        }
    }

    pub fn ann(&self) -> (r: &Span)
        ensures
            *r == self.ann_of(),
    {
        match self {
            Binder::VarBinder { ann, .. } => ann,
            Binder::TypedBinder { ann, .. } => ann,
        }
    }

    /// A binder with a synthetic span, typed where `ty` is given.
    pub fn default(ident: Ident, ty: Option<Ty>) -> (r: Binder)
        ensures
            r == (match ty {
                Some(t) => Binder::TypedBinder { ann: synthetic_span(), var: ident, _type: t },
                None => Binder::VarBinder { ann: synthetic_span(), var: ident },
            }),
    {
        match ty {
            Some(t) => Binder::TypedBinder { ann: Span::default(), var: ident, _type: t },
            None => Binder::VarBinder { ann: Span::default(), var: ident },
        }
    }

    pub fn copy(&self) -> (r: Binder)
        ensures
            r == *self,
    {
        match self {
            Binder::VarBinder { ann, var } => Binder::VarBinder { ann: *ann, var: var.copy() },
            Binder::TypedBinder { ann, var, _type } => Binder::TypedBinder {
                ann: *ann,
                var: var.copy(),
                _type: *_type,
            },
        }
    }
}

impl HasSourceLoc for Binder {
    open spec fn loc(&self) -> Span {
        self.ann_of()
    }

    fn source_loc(&self) -> (r: Span) {
        *self.ann()
    }
}

impl HasSourceLoc for Declaration {
    open spec fn loc(&self) -> Span {
        self.binder_of().ann_of()
    }

    fn source_loc(&self) -> (r: Span) {
        *self.binder().ann()
    }
}

/// A declaration: a `let` binding or a public variable.
#[derive(Debug, PartialEq, Eq)]
pub enum Declaration {
    VarAssignment { binder: Binder, expr: Expr },
    PublicVar { binder: Binder },
}

impl Clone for Declaration {
    fn clone(&self) -> (r: Declaration)
        ensures
            r == *self,
    {
        self.copy()
    }
}

/// Two occurrences of the same name with the same span.
pub open spec fn same_occurrence(a: (Ident, Span), b: (Ident, Span)) -> bool {
    a.0@ == b.0@ && a.1 == b.1
}

/// The occurrences in `s`, each run of equal neighbours kept once.
pub open spec fn dedup_runs(s: Seq<(Ident, Span)>) -> Seq<(Ident, Span)>
    decreases s.len(),
{
    if s.len() == 0 {
        s
    } else {
        let rest = dedup_runs(s.drop_last());
        if s.len() >= 2 && same_occurrence(s[s.len() - 2], s.last()) {
            rest
        } else {
            rest.push(s.last())
        }
    }
}

impl Declaration {
    pub open spec fn binder_of(&self) -> Binder {
        match self {
            Declaration::VarAssignment { binder, .. } => *binder,
            Declaration::PublicVar { binder } => *binder,
        }
    }

    /// The name this declaration binds.
    pub open spec fn name(&self) -> Seq<char> {
        self.binder_of().var_of()@
    }

    /// The names a declaration refers to: the free names of a `let`'s
    /// expression, none for a public variable.
    pub open spec fn deps(&self) -> Set<Seq<char>> {
        match self {
            Declaration::VarAssignment { expr, .. } => expr.free_vars(),
            Declaration::PublicVar { .. } => Set::empty(),
        }
    }

    /// A declaration that refers to no name.
    pub open spec fn is_root(&self) -> bool {
        forall|x: Seq<char>| !self.deps().contains(x)
    }

    pub proof fn lemma_deps_occurrences(&self)
        ensures
            forall|x: Seq<char>|
                #![trigger self.deps().contains(x)]
                #![trigger name_in(self.dep_occurrences(), x)]
                self.deps().contains(x) == name_in(self.dep_occurrences(), x),
    {
        match self {
            Declaration::VarAssignment { expr, .. } => {
                expr.lemma_free_vars_occurrences();
            },
            Declaration::PublicVar { .. } => {
                assert forall|x: Seq<char>|
                    #![trigger self.deps().contains(x)]
                    #![trigger name_in(self.dep_occurrences(), x)]
                    self.deps().contains(x) == name_in(self.dep_occurrences(), x) by {
                    assert(self.dep_occurrences().len() == 0);
                }
            },
        }
    }

    /// Whether this declaration refers to no name.
    pub fn has_no_dependencies(&self) -> (r: bool)
        ensures
            r == self.is_root(),
    {
        let deps = self.get_dependencies();
        proof {
            self.lemma_deps_occurrences();
            if deps@.len() > 0 {
                assert(name_in(deps@, deps@[0].0@));
                assert(self.deps().contains(deps@[0].0@));
            } else {
                assert forall|x: Seq<char>| !self.deps().contains(x) by {
                    assert(!name_in(deps@, x));
                }
            }
        }
        deps.len() == 0
    }

    pub open spec fn dep_occurrences(&self) -> Seq<(Ident, Span)> {
        match self {
            Declaration::VarAssignment { expr, .. } => expr.occurrences(),
            Declaration::PublicVar { .. } => seq![],
        }
    }

    pub open spec fn cleared(&self) -> Declaration {
        match self {
            Declaration::VarAssignment { binder, expr } => Declaration::VarAssignment {
                binder: binder.cleared(),
                expr: expr.cleared(),
            },
            Declaration::PublicVar { binder } => Declaration::PublicVar {
                binder: binder.cleared(),
            },
        }
    }

    pub fn copy(&self) -> (r: Declaration)
        ensures
            r == *self,
    {
        match self {
            Declaration::VarAssignment { binder, expr } => Declaration::VarAssignment {
                binder: binder.copy(),
                expr: expr.copy(),
            },
            Declaration::PublicVar { binder } => Declaration::PublicVar { binder: binder.copy() },
        }
    }

    pub fn binder(&self) -> (r: &Binder)
        ensures
            *r == self.binder_of(),
    {
        match self {
            Declaration::VarAssignment { binder, .. } => binder,
            Declaration::PublicVar { binder } => binder,
        }
    }

    /// The name this declaration binds.
    pub fn get_identifier(&self) -> (r: Ident)
        ensures
            r == self.binder_of().var_of(),
    {
        self.binder().var().copy()
    }

    pub fn clear_annotations(self) -> (r: Declaration)
        ensures
            r == self.cleared(),
    {
        match self {
            Declaration::VarAssignment { binder, expr } => Declaration::VarAssignment {
                binder: binder.clear_annotations(),
                expr: expr.clear_annotations(),
            },
            Declaration::PublicVar { binder } => Declaration::PublicVar {
                binder: binder.clear_annotations(),
            },
        }
    }

    /// The occurrences of names in this declaration, in order, with each run
    /// of equal neighbouring occurrences kept once.
    pub fn get_dependencies(&self) -> (r: Vec<(Ident, Span)>)
        ensures
            r@ == dedup_runs(self.dep_occurrences()),
            forall|x: Seq<char>| #[trigger] name_in(r@, x) == name_in(self.dep_occurrences(), x),
    {
        match self {
            Declaration::VarAssignment { expr, .. } => {
                let vars = expr.variables();
                let mut out: Vec<(Ident, Span)> = Vec::new();
                let mut i: usize = 0;
                while i < vars.len()
                    invariant
                        i <= vars@.len(),
                        vars@ == expr.occurrences(),
                        out@ == dedup_runs(vars@.subrange(0, i as int)),
                        forall|x: Seq<char>|
                            #[trigger] name_in(vars@.subrange(0, i as int), x) == name_in(out@, x),
                    decreases vars@.len() - i,
                {
                    let ghost pre = vars@.subrange(0, i as int);
                    let ghost next = vars@.subrange(0, i + 1);
                    assert(next.drop_last() =~= pre);
                    assert(next.last() == vars@[i as int]);
                    let repeat = i > 0 && vars[i - 1].0.same(&vars[i].0) && vars[i - 1].1
                        == vars[i].1;
                    proof {
                        if i > 0 {
                            assert(next[next.len() - 2] == vars@[i - 1]);
                        }
                    }
                    let ghost out_before = out@;
                    if !repeat {
                        out.push((vars[i].0.copy(), vars[i].1));
                    }
                    proof {
                        assert forall|x: Seq<char>| #[trigger] name_in(next, x) == name_in(out@, x) by {
                            if name_in(next, x) {
                                let j = choose|j: int| 0 <= j < next.len() && next[j].0@ == x;
                                if j < i {
                                    assert(pre[j] == next[j]);
                                    assert(name_in(pre, x));
                                    let k3 = choose|k3: int| 0 <= k3 < out_before.len() && out_before[k3].0@ == x;
                                    assert(out@[k3] == out_before[k3]);
                                } else if !repeat {
                                    assert(out@[out@.len() - 1].0@ == x);
                                } else {
                                    assert(pre[i - 1] == vars@[i - 1]);
                                    assert(name_in(pre, x));
                                    let k3 = choose|k3: int| 0 <= k3 < out_before.len() && out_before[k3].0@ == x;
                                    assert(out@[k3] == out_before[k3]);
                                }
                            }
                            if name_in(out@, x) {
                                let k3 = choose|k3: int| 0 <= k3 < out@.len() && out@[k3].0@ == x;
                                if k3 < out_before.len() {
                                    assert(out@[k3] == out_before[k3]);
                                    assert(name_in(out_before, x));
                                    assert(name_in(pre, x));
                                    let j = choose|j: int| 0 <= j < pre.len() && pre[j].0@ == x;
                                    assert(pre[j] == next[j]);
                                } else {
                                    assert(next[i as int] == vars@[i as int]);
                                }
                            }
                        }
                    }
                    i = i + 1;
                }
                assert(vars@.subrange(0, vars@.len() as int) =~= vars@);
                out
            },
            Declaration::PublicVar { .. } => {
                proof {
                    assert(dedup_runs(seq![]) == Seq::<(Ident, Span)>::empty());
                }
                Vec::new()
            },
        }
    }

    /// Adds this declaration's type to `context`: the declared type of a
    /// public variable, the inferred type of a `let`.
    pub fn typecheck(&self, context: &mut TypeContext) -> (r: Result<(), TypeError>)
        ensures
            match decl_typing(*self, old(context).context@) {
                Ok(c) => r is Ok && final(context).context@ == c,
                Err(e) => r == Err::<(), TypeError>(e) && final(context).context@ == old(
                    context,
                ).context@,
            },
    {
        match self {
            Declaration::VarAssignment { binder, expr } => {
                let t = expr.typecheck(context)?;
                context.insert(binder.var().copy(), t);
                Ok(())
            },
            Declaration::PublicVar { binder } => match binder {
                Binder::TypedBinder { var, _type, .. } => {
                    context.insert(var.copy(), *_type);
                    Ok(())
                },
                Binder::VarBinder { .. } => Ok(()),
            },
        }
    }
}

/// The typing context after `d`, or the error that `d` brings.
pub open spec fn decl_typing(d: Declaration, ctx: Seq<(Ident, Ty)>) -> Result<
    Seq<(Ident, Ty)>,
    TypeError,
> {
    match d {
        Declaration::VarAssignment { binder, expr } => match type_of(expr, ctx) {
            Ok(t) => Ok(ctx.push((binder.var_of(), t))),
            Err(e) => Err(e),
        },
        Declaration::PublicVar { binder } => match binder {
            Binder::TypedBinder { var, _type, .. } => Ok(ctx.push((var, _type))),
            Binder::VarBinder { .. } => Ok(ctx),
        },
    }
}

} // verus!
