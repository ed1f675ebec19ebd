//! Programs: declarations in dependency order and a final expression, built
//! by a constructor that rejects duplicates, unbound names and cycles.
use vstd::prelude::*;
use crate::ast::{name_in, Expr, Ident, Span};
use crate::declaration::{decl_typing, Declaration};
use crate::error::ASTError;
use crate::graph::{
    edges_respected, is_cycle_through, graph_add_edge, graph_add_node, graph_edges, graph_new, graph_nodes,
    graph_toposort, is_perm, IndexGraph,
};
use crate::typechecker::{type_of, Ty, TypeContext, TypeError};

verus! {

/// A program: declarations and the expression whose value it computes.
#[derive(Debug, PartialEq, Eq)]
pub struct Program {
    pub decls: Vec<Declaration>,
    pub expr: Expr,
}

/// No two declarations bind the same name.
pub open spec fn names_unique(d: Seq<Declaration>) -> bool {
    forall|i: int, j: int|
        0 <= i < d.len() && 0 <= j < d.len() && i != j ==> d[i].name() != d[j].name()
}

/// Some declaration binds `x`.
pub open spec fn declares(d: Seq<Declaration>, x: Seq<char>) -> bool {
    exists|i: int| 0 <= i < d.len() && d[i].name() == x
}

/// Every name a `let` refers to is declared.
pub open spec fn lets_declared(d: Seq<Declaration>) -> bool {
    forall|i: int, x: Seq<char>|
        0 <= i < d.len() && #[trigger] d[i].deps().contains(x) ==> declares(d, x)
}

/// Every name that the declarations or `e` refer to is declared.
pub open spec fn refs_declared(d: Seq<Declaration>, e: Expr) -> bool {
    &&& lets_declared(d)
    &&& forall|x: Seq<char>| #[trigger] e.free_vars().contains(x) ==> declares(d, x)
}

/// Declaration `b` refers to the name that declaration `a` binds.
pub open spec fn depends(d: Seq<Declaration>, a: int, b: int) -> bool {
    d[b].deps().contains(d[a].name())
}

/// Every declaration comes, in `order`, after those it refers to.
pub open spec fn respects(d: Seq<Declaration>, order: Seq<usize>) -> bool {
    forall|i: int, j: int|
        0 <= i < order.len() && 0 <= j < order.len() && #[trigger] depends(
            d,
            order[i] as int,
            order[j] as int,
        ) ==> i < j
}

/// Some order of the declarations puts each after those it refers to.
pub open spec fn acyclic(d: Seq<Declaration>) -> bool {
    exists|order: Seq<usize>| is_perm(order, d.len()) && respects(d, order)
}

/// Every name a declaration refers to is bound by an earlier one.
pub open spec fn topologically_ordered(d: Seq<Declaration>) -> bool {
    forall|i: int, x: Seq<char>|
        0 <= i < d.len() && #[trigger] d[i].deps().contains(x) ==> exists|j: int|
            0 <= j < i && d[j].name() == x
}

/// `s` is `d` rearranged.
pub open spec fn permutes(s: Seq<Declaration>, d: Seq<Declaration>) -> bool {
    exists|perm: Seq<usize>| arranged(s, d, perm)
}

/// `s` holds the declarations of `d` in the order `perm` gives.
pub open spec fn arranged(s: Seq<Declaration>, d: Seq<Declaration>, perm: Seq<usize>) -> bool {
    &&& is_perm(perm, d.len())
    &&& s.len() == perm.len()
    &&& forall|k: int| 0 <= k < perm.len() ==> s[k] == d[perm[k] as int]
}

/// `perm` first lists the declarations that refer to no name, in the order
/// given, and then all the others.
pub open spec fn roots_first(d: Seq<Declaration>, perm: Seq<usize>) -> bool {
    exists|g: int| #[trigger] roots_before(d, perm, g)
}

/// The first `g` entries of `perm` are the declarations that refer to no
/// name, in increasing order; the rest refer to some name.
pub open spec fn roots_before(d: Seq<Declaration>, perm: Seq<usize>, g: int) -> bool {
    &&& 0 <= g <= perm.len()
    &&& forall|k: int| 0 <= k < g ==> #[trigger] d[perm[k] as int].is_root()
    &&& forall|k: int| g <= k < perm.len() ==> !#[trigger] d[perm[k] as int].is_root()
    &&& forall|k1: int, k2: int| 0 <= k1 < k2 < g ==> perm[k1] < perm[k2]
}

/// `s` is `d` in the order of the constructor: the declarations that refer
/// to no name first, in the order given, then the others, each after every
/// declaration it refers to.
pub open spec fn dependency_order(s: Seq<Declaration>, d: Seq<Declaration>) -> bool {
    exists|perm: Seq<usize>| arranged(s, d, perm) && respects(d, perm) && roots_first(d, perm)
}

/// An edge of the dependency graph of `d`.
pub open spec fn edge_ok(d: Seq<Declaration>, e: (usize, usize)) -> bool {
    e.0 < d.len() && e.1 < d.len() && depends(d, e.0 as int, e.1 as int)
}

/// `e` reports a name bound twice: a declaration and the span of its binder,
/// with an earlier declaration of the same name.
pub open spec fn is_duplicate_error(d: Seq<Declaration>, e: ASTError) -> bool {
    exists|i: int, j: int|
        0 <= i < j < d.len() && d[i].name() == d[j].name() && e == ASTError::DuplicateIdentifier(
            d[j].binder_of().ann_of(),
            d[j].binder_of().var_of(),
        )
}

/// `e` reports an occurrence, in a declaration or in `expr`, of a name that
/// nothing declares.
pub open spec fn is_unbound_error(d: Seq<Declaration>, expr: Expr, e: ASTError) -> bool {
    exists|occ: (Ident, Span)|
        #[trigger] occurs_in(d, expr, occ) && !declares(d, occ.0@) && e
            == ASTError::UnboundIdentifier(occ.1, occ.0)
}

/// `occ` is an occurrence in one of the declarations or in `expr`.
pub open spec fn occurs_in(d: Seq<Declaration>, expr: Expr, occ: (Ident, Span)) -> bool {
    ||| exists|i: int| 0 <= i < d.len() && d[i].dep_occurrences().contains(occ)
    ||| expr.occurrences().contains(occ)
}

/// A chain of references, of at least one step, from declaration `c` back
/// to itself: each declaration in `path` is referred to by the next.
pub open spec fn is_dependency_cycle(d: Seq<Declaration>, path: Seq<usize>, c: int) -> bool {
    &&& path.len() >= 2
    &&& path[0] == c
    &&& path.last() == c
    &&& forall|i: int| 0 <= i < path.len() - 1 ==> #[trigger] dependency_step(d, path, i)
}

/// The declaration at position `i + 1` of `path` refers to the one at `i`.
pub open spec fn dependency_step(d: Seq<Declaration>, path: Seq<usize>, i: int) -> bool {
    path[i] < d.len() && path[i + 1] < d.len() && depends(d, path[i] as int, path[i + 1] as int)
}

/// `e` reports a declaration on a cycle of references, with the span of its
/// binder.
pub open spec fn is_cycle_error(d: Seq<Declaration>, e: ASTError) -> bool {
    exists|c: int|
        0 <= c < d.len() && (exists|path: Seq<usize>| is_dependency_cycle(d, path, c)) && e
            == ASTError::CyclicDependency(d[c].binder_of().ann_of(), d[c].binder_of().var_of())
}

/// The typing context after the declarations, or the first error.
pub open spec fn decls_typing(d: Seq<Declaration>) -> Result<Seq<(Ident, Ty)>, TypeError>
    decreases d.len(),
{
    if d.len() == 0 {
        Ok(Seq::empty())
    } else {
        match decls_typing(d.drop_last()) {
            Ok(ctx) => decl_typing(d.last(), ctx),
            Err(e) => Err(e),
        }
    }
}

/// The public-variable declarations, in order.
pub open spec fn public_decls(d: Seq<Declaration>) -> Seq<Declaration>
    decreases d.len(),
{
    if d.len() == 0 {
        d
    } else {
        let rest = public_decls(d.drop_last());
        if d.last() is PublicVar {
            rest.push(d.last())
        } else {
            rest
        }
    }
}

impl Program {
    /// The invariant the constructor establishes.
    pub open spec fn wf(&self) -> bool {
        &&& names_unique(self.decls@)
        &&& topologically_ordered(self.decls@)
        &&& forall|x: Seq<char>| #[trigger] self.expr.free_vars().contains(x) ==> declares(
            self.decls@,
            x,
        )
    }
}

/// The index of the first declaration of `x`.
fn find_name(d: &Vec<Declaration>, x: &Ident) -> (r: Option<usize>)
    ensures
        r is None <==> !declares(d@, x@),
        r matches Some(i) ==> i < d@.len() && d@[i as int].name() == x@ && forall|j: int|
            0 <= j < i ==> d@[j].name() != x@,
{
    let mut i: usize = 0;
    while i < d.len()
        invariant
            i <= d@.len(),
            forall|j: int| 0 <= j < i ==> d@[j].name() != x@,
        decreases d@.len() - i,
    {
        if d[i].binder().var().same(x) {
            return Some(i);
        }
        i = i + 1;
    }
    None
}

/// The first declaration of `ident`, if any.
pub fn find_declaration(ident: Ident, decls: Vec<Declaration>) -> (r: Option<Declaration>)
    ensures
        r is None <==> !declares(decls@, ident@),
        r matches Some(decl) ==> exists|i: int|
            0 <= i < decls@.len() && decl == decls@[i] && decl.name() == ident@ && forall|j: int|
                0 <= j < i ==> decls@[j].name() != ident@,
{
    match find_name(&decls, &ident) {
        Some(i) => Some(decls[i].copy()),
        None => None,
    }
}

fn check_duplicates(d: &Vec<Declaration>) -> (r: Result<(), ASTError>)
    ensures
        r is Ok <==> names_unique(d@),
        r matches Err(e) ==> is_duplicate_error(d@, e),
{
    let mut j: usize = 0;
    while j < d.len()
        invariant
            j <= d@.len(),
            forall|a: int, b: int| 0 <= a < j && 0 <= b < j && a != b ==> d@[a].name() != d@[b].name(),
        decreases d@.len() - j,
    {
        let mut i: usize = 0;
        while i < j
            invariant
                i <= j < d@.len(),
                forall|a: int| 0 <= a < i ==> d@[a].name() != d@[j as int].name(),
            decreases j - i,
        {
            if d[i].binder().var().same(d[j].binder().var()) {
                let e = ASTError::DuplicateIdentifier(*d[j].binder().ann(), d[j].binder().var().copy());
                assert(is_duplicate_error(d@, e));
                return Err(e);
            }
            i = i + 1;
        }
        j = j + 1;
    }
    Ok(())
}

/// Checks that every occurrence in `vars` names a declaration.
fn check_occurrences(d: &Vec<Declaration>, vars: &Vec<(Ident, Span)>) -> (r: Result<(), ASTError>)
    ensures
        r is Ok <==> forall|x: Seq<char>| #[trigger] name_in(vars@, x) ==> declares(d@, x),
        r matches Err(e) ==> exists|k: int|
            0 <= k < vars@.len() && !declares(d@, vars@[k].0@) && e
                == ASTError::UnboundIdentifier(vars@[k].1, vars@[k].0),
{
    let mut k: usize = 0;
    while k < vars.len()
        invariant
            k <= vars@.len(),
            forall|m: int| 0 <= m < k ==> declares(d@, vars@[m].0@),
        decreases vars@.len() - k,
    {
        if find_name(d, &vars[k].0).is_none() {
            let e = ASTError::UnboundIdentifier(vars[k].1, vars[k].0.copy());
            assert(name_in(vars@, vars@[k as int].0@));
            return Err(e);
        }
        k = k + 1;
    }
    proof {
        assert forall|x: Seq<char>| #[trigger] name_in(vars@, x) implies declares(d@, x) by {
            let m = choose|m: int| 0 <= m < vars@.len() && vars@[m].0@ == x;
            assert(declares(d@, vars@[m].0@));
        }
    }
    Ok(())
}

fn check_bound(d: &Vec<Declaration>, expr: &Expr) -> (r: Result<(), ASTError>)
    ensures
        r is Ok <==> refs_declared(d@, *expr),
        r matches Err(e) ==> is_unbound_error(d@, *expr, e),
{
    let mut i: usize = 0;
    while i < d.len()
        invariant
            i <= d@.len(),
            forall|i2: int, x: Seq<char>|
                0 <= i2 < i && #[trigger] d@[i2].deps().contains(x) ==> declares(d@, x),
        decreases d@.len() - i,
    {
        match &d[i] {
            Declaration::VarAssignment { expr: e, .. } => {
                let vars = e.variables();
                proof {
                    e.lemma_free_vars_occurrences();
                }
                match check_occurrences(d, &vars) {
                    Err(err) => {
                        proof {
                            let k = choose|k: int|
                                0 <= k < vars@.len() && !declares(d@, vars@[k].0@) && err
                                    == ASTError::UnboundIdentifier(vars@[k].1, vars@[k].0);
                            assert(d@[i as int].dep_occurrences()[k] == vars@[k]);
                            assert(d@[i as int].dep_occurrences().contains(vars@[k]));
                            assert(name_in(vars@, vars@[k].0@));
                            assert(d@[i as int].deps().contains(vars@[k].0@));
                            assert(!lets_declared(d@));
                            assert(exists|i2: int|
                                0 <= i2 < d@.len() && d@[i2].dep_occurrences().contains(vars@[k]));
                            assert(occurs_in(d@, *expr, vars@[k]));
                        }
                        return Err(err);
                    },
                    Ok(()) => {},
                }
            },
            Declaration::PublicVar { .. } => {},
        }
        i = i + 1;
    }
    let vars = expr.variables();
    proof {
        expr.lemma_free_vars_occurrences();
    }
    match check_occurrences(d, &vars) {
        Err(err) => {
            proof {
                let k = choose|k: int|
                    0 <= k < vars@.len() && !declares(d@, vars@[k].0@) && err
                        == ASTError::UnboundIdentifier(vars@[k].1, vars@[k].0);
                assert(expr.occurrences()[k] == vars@[k]);
                assert(expr.occurrences().contains(vars@[k]));
                assert(name_in(vars@, vars@[k].0@));
                assert(expr.free_vars().contains(vars@[k].0@));
                assert(occurs_in(d@, *expr, vars@[k]));
            }
            return Err(err);
        },
        Ok(()) => {},
    }
    Ok(())
}

/// The dependency graph: node `i` for declaration `i`, and an edge `a -> b`
/// where declaration `b` refers to the name that declaration `a` binds.
fn dependency_graph(d: &Vec<Declaration>) -> (g: IndexGraph)
    requires
        names_unique(d@),
    ensures
        graph_nodes(g).len() == d@.len(),
        forall|k: int| 0 <= k < graph_edges(g).len() ==> edge_ok(d@, #[trigger] graph_edges(g)[k]),
        forall|a: int, b: int|
            0 <= a < d@.len() && 0 <= b < d@.len() && #[trigger] depends(d@, a, b) ==> graph_edges(
                g,
            ).contains((a as usize, b as usize)),
{
    let mut g = graph_new();
    let mut i: usize = 0;
    while i < d.len()
        invariant
            i <= d@.len(),
            graph_nodes(g).len() == i,
            graph_edges(g).len() == 0,
        decreases d@.len() - i,
    {
        graph_add_node(&mut g, i);
        i = i + 1;
    }
    let mut b: usize = 0;
    while b < d.len()
        invariant
            b <= d@.len(),
            graph_nodes(g).len() == d@.len(),
            names_unique(d@),
            forall|k: int| 0 <= k < graph_edges(g).len() ==> edge_ok(d@, #[trigger] graph_edges(g)[k]),
            forall|a: int, b2: int|
                0 <= a < d@.len() && 0 <= b2 < b && #[trigger] depends(d@, a, b2) ==> graph_edges(
                    g,
                ).contains((a as usize, b2 as usize)),
        decreases d@.len() - b,
    {
        let deps = d[b].get_dependencies();
        proof {
            d@[b as int].lemma_deps_occurrences();
        }
        let mut k: usize = 0;
        while k < deps.len()
            invariant
                b < d@.len(),
                k <= deps@.len(),
                graph_nodes(g).len() == d@.len(),
                names_unique(d@),
                forall|x: Seq<char>| #[trigger] name_in(deps@, x) == d@[b as int].deps().contains(x),
                forall|j: int| 0 <= j < graph_edges(g).len() ==> edge_ok(d@, #[trigger] graph_edges(g)[j]),
                forall|a: int, b2: int|
                    0 <= a < d@.len() && 0 <= b2 < b && #[trigger] depends(d@, a, b2) ==> graph_edges(
                        g,
                    ).contains((a as usize, b2 as usize)),
                forall|a: int, k2: int|
                    #![trigger deps@[k2], d@[a]]
                    0 <= a < d@.len() && 0 <= k2 < k && deps@[k2].0@ == d@[a].name()
                        ==> graph_edges(g).contains((a as usize, b)),
            decreases deps@.len() - k,
        {
            proof {
                assert(name_in(deps@, deps@[k as int].0@));
            }
            match find_name(d, &deps[k].0) {
                Some(a) => {
                    let ghost before = graph_edges(g);
                    graph_add_edge(&mut g, a, b);
                    proof {
                        let after = graph_edges(g);
                        assert(after[before.len() as int] == (a, b));
                        assert forall|j: int| 0 <= j < after.len() implies edge_ok(d@, #[trigger] after[j]) by {
                            if j < before.len() {
                                assert(after[j] == before[j]);
                            }
                        }
                        assert forall|a2: int, b2: int|
                            0 <= a2 < d@.len() && 0 <= b2 < b && #[trigger] depends(d@, a2, b2)
                            implies after.contains((a2 as usize, b2 as usize)) by {
                            let j = choose|j: int| 0 <= j < before.len() && before[j] == (a2 as usize, b2 as usize);
                            assert(after[j] == before[j]);
                        }
                        assert forall|a2: int, k2: int|
                            #![trigger deps@[k2], d@[a2]]
                            0 <= a2 < d@.len() && 0 <= k2 < k + 1 && deps@[k2].0@ == d@[a2].name()
                            implies after.contains((a2 as usize, b)) by {
                            if k2 < k {
                                let j = choose|j: int| 0 <= j < before.len() && before[j] == (a2 as usize, b);
                                assert(after[j] == before[j]);
                            } else {
                                assert(d@[a2].name() == d@[a as int].name());
                                assert(a2 == a);
                                assert(after[before.len() as int] == (a2 as usize, b));
                            }
                        }
                    }
                },
                None => {},
            }
            k = k + 1;
        }
        proof {
            assert forall|a: int, b2: int|
                0 <= a < d@.len() && 0 <= b2 < b + 1 && #[trigger] depends(d@, a, b2)
                implies graph_edges(g).contains((a as usize, b2 as usize)) by {
                if b2 == b {
                    assert(name_in(deps@, d@[a].name()));
                    let k2 = choose|k2: int| 0 <= k2 < deps@.len() && deps@[k2].0@ == d@[a].name();
                    assert(deps@[k2].0@ == d@[a].name());
                }
            }
        }
        b = b + 1;
    }
    g
}

/// The declarations in dependency order: first those that refer to no name,
/// in the order given, then the others in topological order.
fn sort(d: Vec<Declaration>) -> (r: Result<Vec<Declaration>, ASTError>)
    requires
        names_unique(d@),
    ensures
        d@.len() <= usize::MAX,
        r is Ok <==> acyclic(d@),
        r matches Ok(s) ==> dependency_order(s@, d@),
        r matches Err(e) ==> is_cycle_error(d@, e),
{
    let n = d.len();
    let g = dependency_graph(&d);
    let order = match graph_toposort(&g) {
        Err(c) => {
            proof {
                assert forall|o: Seq<usize>| is_perm(o, d@.len()) implies !respects(d@, o) by {
                    if respects(d@, o) {
                        assert forall|k: int, i: int, j: int|
                            0 <= k < graph_edges(g).len() && 0 <= i < o.len() && 0 <= j < o.len()
                                && graph_edges(g)[k] == (o[i], o[j]) implies i < j by {
                            assert(edge_ok(d@, graph_edges(g)[k]));
                            assert(depends(d@, o[i] as int, o[j] as int));
                        }
                        assert(edges_respected(graph_edges(g), o));
                    }
                }
                let path = choose|path: Seq<usize>| is_cycle_through(graph_edges(g), path, c);
                assert forall|i: int| 0 <= i < path.len() - 1 implies #[trigger] dependency_step(
                    d@,
                    path,
                    i,
                ) by {
                    assert(graph_edges(g).contains((path[i], path[i + 1])));
                    let k = choose|k: int| 0 <= k < graph_edges(g).len() && graph_edges(g)[k] == (path[i], path[i + 1]);
                    assert(edge_ok(d@, graph_edges(g)[k]));
                }
                assert(is_dependency_cycle(d@, path, c as int));
            }
            return Err(ASTError::CyclicDependency(*d[c].binder().ann(), d[c].binder().var().copy()));
        },
        Ok(order) => order,
    };
    proof {
        assert forall|i: int, j: int|
            0 <= i < order@.len() && 0 <= j < order@.len() && #[trigger] depends(
                d@,
                order@[i] as int,
                order@[j] as int,
            ) implies i < j by {
            assert(graph_edges(g).contains((order@[i], order@[j])));
            let k = choose|k: int| 0 <= k < graph_edges(g).len() && graph_edges(g)[k] == (order@[i], order@[j]);
        }
    }
    let mut sorted: Vec<Declaration> = Vec::new();
    let ghost mut perm: Seq<usize> = Seq::empty();
    let mut i: usize = 0;
    while i < n
        invariant
            n == d@.len(),
            i <= n,
            sorted@.len() == perm.len(),
            forall|k: int| 0 <= k < perm.len() ==> sorted@[k] == d@[perm[k] as int],
            forall|k: int| 0 <= k < perm.len() ==> perm[k] < i && d@[perm[k] as int].is_root(),
            forall|k1: int, k2: int| 0 <= k1 < k2 < perm.len() ==> perm[k1] < perm[k2],
            forall|i2: usize| i2 < i && #[trigger] d@[i2 as int].is_root() ==> perm.contains(i2),
        decreases n - i,
    {
        if d[i].has_no_dependencies() {
            let ghost before = perm;
            sorted.push(d[i].copy());
            proof {
                perm = perm.push(i);
                assert forall|i2: usize| i2 < i + 1 && #[trigger] d@[i2 as int].is_root() implies perm.contains(i2) by {
                    if i2 < i {
                        let k = choose|k: int| 0 <= k < before.len() && before[k] == i2;
                        assert(perm[k] == before[k]);
                    } else {
                        assert(perm[perm.len() - 1] == i2);
                    }
                }
            }
        }
        i = i + 1;
    }
    let ghost g1 = perm.len() as int;
    let ghost mut src: Seq<int> = Seq::empty();
    let mut t: usize = 0;
    while t < n
        invariant
            n == d@.len(),
            is_perm(order@, n as nat),
            order@.len() == n,
            t <= n,
            0 <= g1,
            sorted@.len() == perm.len(),
            perm.len() == g1 + src.len(),
            forall|k: int| 0 <= k < perm.len() ==> sorted@[k] == d@[perm[k] as int],
            forall|k: int| 0 <= k < g1 ==> perm[k] < n && d@[perm[k] as int].is_root(),
            forall|k1: int, k2: int| 0 <= k1 < k2 < g1 ==> perm[k1] < perm[k2],
            forall|i2: usize| i2 < n && #[trigger] d@[i2 as int].is_root() ==> perm.contains(i2),
            forall|m: int|
                0 <= m < src.len() ==> 0 <= #[trigger] src[m] < t && perm[g1 + m] == order@[src[m]]
                    && !d@[perm[g1 + m] as int].is_root(),
            forall|m1: int, m2: int| 0 <= m1 < m2 < src.len() ==> src[m1] < src[m2],
            forall|t2: int|
                0 <= t2 < t && !d@[order@[t2] as int].is_root() ==> perm.contains(#[trigger] order@[t2]),
        decreases n - t,
    {
        let idx = order[t];
        if !d[idx].has_no_dependencies() {
            let ghost before = perm;
            sorted.push(d[idx].copy());
            proof {
                perm = perm.push(idx);
                let src_before = src;
                src = src.push(t as int);
                assert forall|m: int| 0 <= m < src.len() implies 0 <= #[trigger] src[m] < t + 1
                    && perm[g1 + m] == order@[src[m]] && !d@[perm[g1 + m] as int].is_root() by {
                    if m < src.len() - 1 {
                        assert(before.len() == g1 + src_before.len());
                        assert(g1 + m < before.len());
                        assert(src[m] == src_before[m]);
                        assert(perm[g1 + m] == before[g1 + m]);
                    }
                }
                assert forall|i2: usize| i2 < n && #[trigger] d@[i2 as int].is_root() implies perm.contains(i2) by {
                    let k = choose|k: int| 0 <= k < before.len() && before[k] == i2;
                    assert(perm[k] == before[k]);
                }
                assert forall|t2: int|
                    0 <= t2 < t + 1 && !d@[order@[t2] as int].is_root() implies perm.contains(#[trigger] order@[t2]) by {
                    if t2 < t {
                        let k = choose|k: int| 0 <= k < before.len() && before[k] == order@[t2];
                        assert(perm[k] == before[k]);
                    } else {
                        assert(perm[perm.len() - 1] == order@[t2]);
                    }
                }
            }
        }
        t = t + 1;
    }
    proof {
        assert(is_perm(perm, n as nat)) by {
            assert forall|k: int| 0 <= k < perm.len() implies perm[k] < n by {
                if k >= g1 {
                    assert(perm[g1 + (k - g1)] == order@[src[k - g1]]);
                }
            }
            assert forall|k1: int, k2: int| 0 <= k1 < perm.len() && 0 <= k2 < perm.len() && k1 != k2
                implies perm[k1] != perm[k2] by {
                if k1 < g1 && k2 < g1 {
                } else if k1 >= g1 && k2 >= g1 {
                    assert(src[k1 - g1] != src[k2 - g1]);
                    assert(order@.no_duplicates());
                    assert(perm[k1] == order@[src[k1 - g1]]);
                    assert(perm[k2] == order@[src[k2 - g1]]);
                } else if k1 < g1 {
                    assert(d@[perm[k1] as int].is_root());
                    assert(0 <= src[k2 - g1]);
                    assert(!d@[perm[g1 + (k2 - g1)] as int].is_root());
                } else {
                    assert(d@[perm[k2] as int].is_root());
                    assert(0 <= src[k1 - g1]);
                    assert(!d@[perm[g1 + (k1 - g1)] as int].is_root());
                }
            }
            assert forall|i2: usize| i2 < n implies perm.contains(i2) by {
                if !d@[i2 as int].is_root() {
                    assert(order@.contains(i2));
                    let t2 = choose|t2: int| 0 <= t2 < order@.len() && order@[t2] == i2;
                    assert(perm.contains(order@[t2]));
                }
            }
        }
        assert(roots_first(d@, perm)) by {
            assert forall|k: int| g1 <= k < perm.len() implies !#[trigger] d@[perm[k] as int].is_root() by {
                assert(0 <= src[k - g1]);
                assert(perm[g1 + (k - g1)] == perm[k]);
            }
            assert(roots_before(d@, perm, g1));
        }
        assert(respects(d@, perm)) by {
            assert forall|i1: int, j1: int|
                0 <= i1 < perm.len() && 0 <= j1 < perm.len() && #[trigger] depends(
                    d@,
                    perm[i1] as int,
                    perm[j1] as int,
                ) implies i1 < j1 by {
                assert(d@[perm[j1] as int].deps().contains(d@[perm[i1] as int].name()));
                assert(!d@[perm[j1] as int].is_root());
                if i1 >= g1 {
                    assert(src[i1 - g1] < src[j1 - g1]) by {
                        assert(depends(d@, order@[src[i1 - g1]] as int, order@[src[j1 - g1]] as int));
                    }
                    if i1 >= j1 {
                        if i1 > j1 {
                            assert(src[j1 - g1] < src[i1 - g1]);
                        }
                    }
                }
            }
        }
    }
    assert(arranged(sorted@, d@, perm));
    Ok(sorted)
}

/// Declarations arranged in an order that respects their dependencies form
/// a well-formed program with any expression whose names they declare.
proof fn lemma_arranged_wf(s: Seq<Declaration>, d: Seq<Declaration>, perm: Seq<usize>, expr: Expr)
    requires
        d.len() <= usize::MAX,
        arranged(s, d, perm),
        respects(d, perm),
        names_unique(d),
        refs_declared(d, expr),
    ensures
        names_unique(s),
        topologically_ordered(s),
        forall|x: Seq<char>| #[trigger] expr.free_vars().contains(x) ==> declares(s, x),
{
    assert forall|x: Seq<char>| declares(d, x) implies declares(s, x) by {
        let a = choose|a: int| 0 <= a < d.len() && d[a].name() == x;
        assert(perm.contains(a as usize));
        let k = choose|k: int| 0 <= k < perm.len() && perm[k] == a as usize;
        assert(s[k] == d[a]);
    }
    assert forall|q: int, x: Seq<char>|
        0 <= q < s.len() && #[trigger] s[q].deps().contains(x) implies exists|j: int|
            0 <= j < q && s[j].name() == x by {
        assert(s[q] == d[perm[q] as int]);
        assert(d[perm[q] as int].deps().contains(x));
        assert(declares(d, x));
        let a = choose|a: int| 0 <= a < d.len() && d[a].name() == x;
        assert(perm.contains(a as usize));
        let k = choose|k: int| 0 <= k < perm.len() && perm[k] == a as usize;
        assert(depends(d, perm[k] as int, perm[q] as int));
        assert(s[k] == d[a]);
    }
    assert forall|k1: int, k2: int| 0 <= k1 < s.len() && 0 <= k2 < s.len() && k1 != k2
        implies s[k1].name() != s[k2].name() by {
        assert(perm[k1] != perm[k2]);
        assert(s[k1] == d[perm[k1] as int]);
        assert(s[k2] == d[perm[k2] as int]);
    }
}

impl Program {
    /// Builds a program from declarations in any order: rejects a name bound
    /// twice, then a cycle of references, then a name that nothing declares;
    /// otherwise returns the declarations that refer to no name, in the order
    /// given, followed by the others in dependency order.
    pub fn new(decls: Vec<Declaration>, expr: Expr) -> (r: Result<Program, ASTError>)
        ensures
            r is Ok <==> names_unique(decls@) && acyclic(decls@) && refs_declared(decls@, expr),
            r matches Ok(p) ==> p.wf() && p.expr == expr && dependency_order(p.decls@, decls@),
            !names_unique(decls@) ==> (r matches Err(e) && is_duplicate_error(decls@, e)),
            names_unique(decls@) && !acyclic(decls@) ==> (r matches Err(e) && is_cycle_error(
                decls@,
                e,
            )),
            names_unique(decls@) && acyclic(decls@) && !refs_declared(decls@, expr) ==> (r matches Err(
                e,
            ) && is_unbound_error(decls@, expr, e)),
    {
        check_duplicates(&decls)?;
        let bound = check_bound(&decls, &expr);
        let ghost d = decls@;
        let sorted = sort(decls)?;
        bound?;
        proof {
            assert(d.len() <= usize::MAX);
            let perm = choose|perm: Seq<usize>|
                arranged(sorted@, d, perm) && respects(d, perm) && roots_first(d, perm);
            lemma_arranged_wf(sorted@, d, perm, expr);
        }
        Ok(Program { decls: sorted, expr })
    }
}

impl Clone for Program {
    fn clone(&self) -> (r: Program)
        ensures
            r.decls@ == self.decls@,
            r.expr == self.expr,
    {
        Program { decls: copy_decls(&self.decls), expr: self.expr.copy() }
    }
}

fn copy_decls(d: &Vec<Declaration>) -> (r: Vec<Declaration>)
    ensures
        r@ == d@,
{
    let mut out: Vec<Declaration> = Vec::new();
    let mut i: usize = 0;
    while i < d.len()
        invariant
            i <= d@.len(),
            out@ == d@.subrange(0, i as int),
        decreases d@.len() - i,
    {
        out.push(d[i].copy());
        assert(out@ =~= d@.subrange(0, i + 1));
        i = i + 1;
    }
    assert(d@.subrange(0, d@.len() as int) =~= d@);
    out
}

impl Program {
    /// The same program with every span made synthetic.
    pub fn clear_annotations(self) -> (r: Program)
        ensures
            r.decls@ == self.decls@.map_values(|d: Declaration| d.cleared()),
            r.expr == self.expr.cleared(),
    {
        let Program { decls, expr } = self;
        let mut out: Vec<Declaration> = Vec::new();
        let mut i: usize = 0;
        while i < decls.len()
            invariant
                i <= decls@.len(),
                out@ == decls@.subrange(0, i as int).map_values(|d: Declaration| d.cleared()),
            decreases decls@.len() - i,
        {
            out.push(decls[i].copy().clear_annotations());
            assert(out@ =~= decls@.subrange(0, i + 1).map_values(|d: Declaration| d.cleared()));
            i = i + 1;
        }
        assert(decls@.subrange(0, decls@.len() as int) =~= decls@);
        Program { decls: out, expr: expr.clear_annotations() }
    }

    /// The public-variable declarations, in order.
    pub fn public_variable_decls(&self) -> (r: Vec<Declaration>)
        ensures
            r@ == public_decls(self.decls@),
    {
        let mut out: Vec<Declaration> = Vec::new();
        let mut i: usize = 0;
        while i < self.decls.len()
            invariant
                i <= self.decls@.len(),
                out@ == public_decls(self.decls@.subrange(0, i as int)),
            decreases self.decls@.len() - i,
        {
            assert(self.decls@.subrange(0, i + 1).drop_last() =~= self.decls@.subrange(0, i as int));
            match &self.decls[i] {
                Declaration::PublicVar { .. } => {
                    out.push(self.decls[i].copy());
                },
                Declaration::VarAssignment { .. } => {},
            }
            i = i + 1;
        }
        assert(self.decls@.subrange(0, self.decls@.len() as int) =~= self.decls@);
        out
    }

    /// Type-checks the declarations in order, then the final expression.
    pub fn typecheck(&self) -> (r: Result<(), TypeError>)
        ensures
            r == (match decls_typing(self.decls@) {
                Ok(ctx) => match type_of(self.expr, ctx) {
                    Ok(_) => Ok(()),
                    Err(e) => Err(e),
                },
                Err(e) => Err(e),
            }),
    {
        let mut context = TypeContext::new();
        let mut i: usize = 0;
        while i < self.decls.len()
            invariant
                i <= self.decls@.len(),
                decls_typing(self.decls@.subrange(0, i as int)) == Ok::<Seq<(Ident, Ty)>, TypeError>(
                    context.context@,
                ),
            decreases self.decls@.len() - i,
        {
            assert(self.decls@.subrange(0, i + 1).drop_last() =~= self.decls@.subrange(0, i as int));
            match self.decls[i].typecheck(&mut context) {
                Ok(()) => {},
                Err(e) => {
                    proof {
                        lemma_typing_stays_failed(self.decls@, i as int + 1);
                    }
                    return Err(e);
                },
            }
            i = i + 1;
        }
        assert(self.decls@.subrange(0, self.decls@.len() as int) =~= self.decls@);
        match self.expr.typecheck(&context) {
            Ok(_) => Ok(()),
            Err(e) => Err(e),
        }
    }
}

/// Once a prefix of the declarations fails to type-check, so does the whole.
proof fn lemma_typing_stays_failed(d: Seq<Declaration>, k: int)
    requires
        0 <= k <= d.len(),
        decls_typing(d.subrange(0, k)) is Err,
    ensures
        decls_typing(d) == decls_typing(d.subrange(0, k)),
    decreases d.len() - k,
{
    if k < d.len() {
        assert(d.subrange(0, k + 1).drop_last() =~= d.subrange(0, k));
        lemma_typing_stays_failed(d, k + 1);
    } else {
        assert(d.subrange(0, k) =~= d);
    }
}

/// Declarations that bind distinct names, each referring only to names bound
/// before it, with an expression over declared names, are accepted by
/// `Program::new`: nothing is duplicated, every reference is declared, and
/// their own order shows that they are free of cycles.
pub proof fn lemma_ordered_input_accepted(decls: Seq<Declaration>, expr: Expr)
    requires
        decls.len() <= usize::MAX,
        names_unique(decls),
        topologically_ordered(decls),
        forall|x: Seq<char>| #[trigger] expr.free_vars().contains(x) ==> declares(decls, x),
    ensures
        refs_declared(decls, expr),
        acyclic(decls),
{
    let n = decls.len();
    let id = Seq::new(n, |i: int| i as usize);
    assert forall|i: int, x: Seq<char>|
        0 <= i < n && #[trigger] decls[i].deps().contains(x) implies declares(decls, x) by {
        let j = choose|j: int| 0 <= j < i && decls[j].name() == x;
    }
    assert(is_perm(id, n)) by {
        assert forall|i: usize| i < n implies id.contains(i) by {
            assert(id[i as int] == i);
        }
    }
    assert forall|i: int, j: int|
        0 <= i < id.len() && 0 <= j < id.len() && #[trigger] depends(
            decls,
            id[i] as int,
            id[j] as int,
        ) implies i < j by {
        assert(decls[j].deps().contains(decls[i].name()));
        let j2 = choose|j2: int| 0 <= j2 < j && decls[j2].name() == decls[i].name();
        assert(j2 == i);
    }
    assert(respects(decls, id));
}

} // verus!
