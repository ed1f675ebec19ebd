//! Association lists keyed by identifiers, where the latest entry for a name
//! shadows earlier ones.
use vstd::prelude::*;
use crate::ast::Ident;

verus! {

/// The value bound to `x` by the latest entry for it.
pub open spec fn lookup<V>(s: Seq<(Ident, V)>, x: Seq<char>) -> Option<V>
    decreases s.len(),
{
    if s.len() == 0 {
        None
    } else if s.last().0@ == x {
        Some(s.last().1)
    } else {
        lookup(s.drop_last(), x)
    }
}

/// The set of names bound in `s`.
pub open spec fn bound_names<V>(s: Seq<(Ident, V)>) -> Set<Seq<char>> {
    Set::new(|x: Seq<char>| lookup(s, x) is Some)
}

/// The index of the latest entry for `x`.
pub fn find_last<V>(entries: &Vec<(Ident, V)>, x: &Ident) -> (r: Option<usize>)
    ensures
        r is None <==> lookup(entries@, x@) is None,
        r matches Some(i) ==> i < entries@.len() && entries@[i as int].0@ == x@
            && lookup(entries@, x@) == Some(entries@[i as int].1),
{
    let mut i = entries.len();
    assert(entries@.subrange(0, i as int) =~= entries@);
    while i > 0
        invariant
            i <= entries@.len(),
            lookup(entries@, x@) == lookup(entries@.subrange(0, i as int), x@),
        decreases i,
    {
        let ghost prefix = entries@.subrange(0, i as int);
        assert(prefix.drop_last() =~= entries@.subrange(0, i - 1));
        i = i - 1;
        if entries[i].0.same(x) {
            return Some(i);
        }
    }
    assert(entries@.subrange(0, 0).len() == 0);
    None
}

} // verus!
