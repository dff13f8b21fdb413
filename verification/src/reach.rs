//! Reachability along a step relation.

use vstd::prelude::*;

verus! {

/// Whether `p` is a walk along `step`: it is not empty and each of its
/// elements steps to the next.
pub open spec fn is_path<T>(step: spec_fn(T, T) -> bool, p: Seq<T>) -> bool {
    &&& p.len() > 0
    &&& forall|k: int| 0 <= k < p.len() - 1 ==> step(#[trigger] p[k], p[k + 1])
}

/// Whether a walk along `step` leads from `root` to `x`. Every element
/// reaches itself.
pub open spec fn reaches<T>(step: spec_fn(T, T) -> bool, root: T, x: T) -> bool {
    exists|p: Seq<T>| is_path(step, p) && #[trigger] p.first() == root && p.last() == x
}

/// Every element reaches itself.
pub proof fn lemma_reaches_self<T>(step: spec_fn(T, T) -> bool, root: T)
    ensures
        reaches(step, root, root),
{
    let p = seq![root];
    assert(is_path(step, p));
    assert(p.first() == root && p.last() == root);
}

/// What is reached can be left by one more step.
pub proof fn lemma_reaches_step<T>(step: spec_fn(T, T) -> bool, root: T, a: T, b: T)
    requires
        reaches(step, root, a),
        step(a, b),
    ensures
        reaches(step, root, b),
{
    let p = choose|p: Seq<T>| is_path(step, p) && #[trigger] p.first() == root && p.last() == a;
    let q = p.push(b);
    assert forall|k: int| 0 <= k < q.len() - 1 implies step(#[trigger] q[k], q[k + 1]) by {
        if k < p.len() - 1 {
            assert(q[k] == p[k]);
            assert(q[k + 1] == p[k + 1]);
        }
    }
    assert(is_path(step, q));
    assert(q.first() == root && q.last() == b);
}

/// A set that holds `root` and is closed under `step` holds everything that
/// `root` reaches.
pub proof fn lemma_closed_holds_reachable<T>(
    step: spec_fn(T, T) -> bool,
    inside: spec_fn(T) -> bool,
    root: T,
    x: T,
)
    requires
        inside(root),
        forall|a: T, b: T| inside(a) && #[trigger] step(a, b) ==> inside(b),
        reaches(step, root, x),
    ensures
        inside(x),
{
    let p = choose|p: Seq<T>| is_path(step, p) && #[trigger] p.first() == root && p.last() == x;
    lemma_path_stays_inside(step, inside, p, p.len() - 1);
}

proof fn lemma_path_stays_inside<T>(
    step: spec_fn(T, T) -> bool,
    inside: spec_fn(T) -> bool,
    p: Seq<T>,
    k: int,
)
    requires
        is_path(step, p),
        inside(p.first()),
        forall|a: T, b: T| inside(a) && #[trigger] step(a, b) ==> inside(b),
        0 <= k < p.len(),
    ensures
        inside(p[k]),
    decreases k,
{
    if k > 0 {
        lemma_path_stays_inside(step, inside, p, k - 1);
        assert(step(p[k - 1], p[k - 1 + 1]));
    }
}

/// Along a relation that allows more steps, no less is reached.
pub proof fn lemma_reaches_monotone<T>(
    narrow: spec_fn(T, T) -> bool,
    wide: spec_fn(T, T) -> bool,
    root: T,
    x: T,
)
    requires
        forall|a: T, b: T| #[trigger] narrow(a, b) ==> wide(a, b),
        reaches(narrow, root, x),
    ensures
        reaches(wide, root, x),
{
    let p = choose|p: Seq<T>| is_path(narrow, p) && #[trigger] p.first() == root && p.last() == x;
    assert forall|k: int| 0 <= k < p.len() - 1 implies wide(#[trigger] p[k], p[k + 1]) by {
        assert(narrow(p[k], p[k + 1]));
    }
    assert(is_path(wide, p));
}

} // verus!
