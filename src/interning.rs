//! Insertion-ordered tables without repeats: what interning a sequence of
//! items into one does, and where an item ends up.
use vstd::prelude::*;

verus! {

/// `t` after `x` was interned into it: unchanged if it holds `x`, else `x`
/// goes last.
pub open spec fn intern_one<A>(t: Seq<A>, x: A) -> Seq<A> {
    if t.contains(x) {
        t
    } else {
        t.push(x)
    }
}

/// `t` after each of `xs` was interned into it, in order.
pub open spec fn intern_all<A>(t: Seq<A>, xs: Seq<A>) -> Seq<A>
    decreases xs.len(),
{
    if xs.len() == 0 {
        t
    } else {
        intern_one(intern_all(t, xs.drop_last()), xs.last())
    }
}

/// The position of `x` in `t`.
pub open spec fn position<A>(t: Seq<A>, x: A) -> int {
    choose|i: int| 0 <= i < t.len() && t[i] == x
}

/// `u` begins with `t`.
pub open spec fn extends<A>(u: Seq<A>, t: Seq<A>) -> bool {
    t.len() <= u.len() && forall|i: int| 0 <= i < t.len() ==> #[trigger] u[i] == t[i]
}

pub proof fn lemma_position<A>(t: Seq<A>, i: int, x: A)
    requires
        t.no_duplicates(),
        0 <= i < t.len(),
        t[i] == x,
    ensures
        position(t, x) == i,
{
    let j = position(t, x);
    assert(0 <= j < t.len() && t[j] == x);
}

pub proof fn lemma_intern_one<A>(t: Seq<A>, x: A)
    requires
        t.no_duplicates(),
    ensures
        intern_one(t, x).no_duplicates(),
        extends(intern_one(t, x), t),
        intern_one(t, x).contains(x),
        intern_one(t, x).len() <= t.len() + 1,
{
    let u = intern_one(t, x);
    if !t.contains(x) {
        assert forall|a: int, b: int| 0 <= a < u.len() && 0 <= b < u.len() && a != b implies u[a]
            != u[b] by {
            if a == t.len() {
                assert(u[b] == t[b]);
            } else if b == t.len() {
                assert(u[a] == t[a]);
            } else {
                assert(u[a] == t[a] && u[b] == t[b]);
            }
        }
        assert(u[t.len() as int] == x);
    }
}

pub proof fn lemma_intern_all<A>(t: Seq<A>, xs: Seq<A>)
    requires
        t.no_duplicates(),
    ensures
        intern_all(t, xs).no_duplicates(),
        extends(intern_all(t, xs), t),
        intern_all(t, xs).len() <= t.len() + xs.len(),
        forall|j: int| 0 <= j < xs.len() ==> intern_all(t, xs).contains(#[trigger] xs[j]),
    decreases xs.len(),
{
    if xs.len() > 0 {
        let p = intern_all(t, xs.drop_last());
        lemma_intern_all(t, xs.drop_last());
        lemma_intern_one(p, xs.last());
        let u = intern_all(t, xs);
        assert forall|j: int| 0 <= j < xs.len() implies u.contains(#[trigger] xs[j]) by {
            if j < xs.len() - 1 {
                assert(xs.drop_last()[j] == xs[j]);
                let k = choose|k: int| 0 <= k < p.len() && p[k] == xs[j];
                assert(u[k] == xs[j]);
            }
        }
    }
}

/// Positions of items of `t` stay the same in a table that extends it.
pub proof fn lemma_position_extends<A>(u: Seq<A>, t: Seq<A>, x: A)
    requires
        u.no_duplicates(),
        extends(u, t),
        t.contains(x),
    ensures
        u.contains(x),
        position(u, x) == position(t, x),
        0 <= position(u, x) < t.len(),
{
    let i = choose|i: int| 0 <= i < t.len() && t[i] == x;
    assert(u[i] == x);
    lemma_position(u, i, x);
    assert(t.no_duplicates()) by {
        assert forall|a: int, b: int| 0 <= a < t.len() && 0 <= b < t.len() && a != b implies t[a]
            != t[b] by {
            assert(u[a] == t[a] && u[b] == t[b]);
        }
    }
    lemma_position(t, i, x);
}

} // verus!

verus! {

/// Interning a longer sequence extends what interning a prefix gives.
pub proof fn lemma_intern_all_prefix<A>(t: Seq<A>, xs: Seq<A>, j: int)
    requires
        t.no_duplicates(),
        0 <= j <= xs.len(),
    ensures
        extends(intern_all(t, xs), intern_all(t, xs.take(j))),
    decreases xs.len(),
{
    if j == xs.len() {
        assert(xs.take(j) =~= xs);
    } else {
        lemma_intern_all_prefix(t, xs.drop_last(), j);
        assert(xs.drop_last().take(j) =~= xs.take(j));
        lemma_intern_all(t, xs.drop_last());
        lemma_intern_one(intern_all(t, xs.drop_last()), xs.last());
    }
}

} // verus!
