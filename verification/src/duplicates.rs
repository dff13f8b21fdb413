//! Duplicate detection: the packages of a graph whose name is shared by
//! another node.

use vstd::prelude::*;
use crate::graph::DependencyGraph;
use crate::identity::{
    identities, identity_lt, law_identity_lt_asymmetric, law_identity_lt_total,
    law_identity_lt_transitive, IdentityView, PackageIdentity,
};

verus! {

/// Whether the identity at `h` shares its name with the identity at another
/// place of the list.
pub open spec fn shares_name(ids: Seq<IdentityView>, h: int) -> bool {
    exists|other: int|
        0 <= other < ids.len() && other != h && (#[trigger] ids[other]).name == ids[h].name
}

/// Whether `id` is in the list and shares its name with another entry.
pub open spec fn is_duplicate(ids: Seq<IdentityView>, id: IdentityView) -> bool {
    exists|h: int| 0 <= h < ids.len() && #[trigger] ids[h] == id && shares_name(ids, h)
}

/// Whether each identity of the list comes strictly before the next ones.
pub open spec fn strictly_sorted(ids: Seq<IdentityView>) -> bool {
    forall|a: int, b: int|
        0 <= a < b < ids.len() ==> identity_lt(#[trigger] ids[a], #[trigger] ids[b])
}

/// Two strictly sorted lists that hold the same identities are the same list.
pub proof fn law_sorted_list_is_unique(x: Seq<IdentityView>, y: Seq<IdentityView>)
    requires
        strictly_sorted(x),
        strictly_sorted(y),
        forall|id: IdentityView| x.contains(id) <==> y.contains(id),
    ensures
        x == y,
    decreases x.len(),
{
    if x.len() == 0 {
        if y.len() > 0 {
            assert(y.contains(y[0]));
        }
        assert(x =~= y);
    } else if y.len() == 0 {
        assert(x.contains(x[0]));
    } else {
        // The least identity of either list stands first in it.
        assert(y.contains(x[0])) by {
            assert(x.contains(x[0]));
        }
        assert(x.contains(y[0])) by {
            assert(y.contains(y[0]));
        }
        let j = choose|j: int| 0 <= j < y.len() && y[j] == x[0];
        let i = choose|i: int| 0 <= i < x.len() && x[i] == y[0];
        law_identity_lt_asymmetric(x[0], y[0]);
        if j > 0 {
            assert(identity_lt(y[0], y[j]));
            if i > 0 {
                assert(identity_lt(x[0], x[i]));
            }
        }
        assert(x[0] == y[0]);
        let xs = x.drop_first();
        let ys = y.drop_first();
        assert forall|id: IdentityView| xs.contains(id) <==> ys.contains(id) by {
            law_identity_lt_asymmetric(x[0], id);
            if xs.contains(id) {
                let k = choose|k: int| 0 <= k < xs.len() && xs[k] == id;
                assert(x[k + 1] == id);
                assert(identity_lt(x[0], x[k + 1]));
                assert(x.contains(id));
                let m = choose|m: int| 0 <= m < y.len() && y[m] == id;
                assert(m > 0);
                assert(ys[m - 1] == id);
            }
            if ys.contains(id) {
                let k = choose|k: int| 0 <= k < ys.len() && ys[k] == id;
                assert(y[k + 1] == id);
                assert(identity_lt(y[0], y[k + 1]));
                assert(y.contains(id));
                let m = choose|m: int| 0 <= m < x.len() && x[m] == id;
                assert(m > 0);
                assert(xs[m - 1] == id);
            }
        }
        assert forall|a: int, b: int| 0 <= a < b < xs.len() implies identity_lt(
            #[trigger] xs[a],
            #[trigger] xs[b],
        ) by {
            assert(identity_lt(x[a + 1], x[b + 1]));
        }
        assert forall|a: int, b: int| 0 <= a < b < ys.len() implies identity_lt(
            #[trigger] ys[a],
            #[trigger] ys[b],
        ) by {
            assert(identity_lt(y[a + 1], y[b + 1]));
        }
        law_sorted_list_is_unique(xs, ys);
        assert(x =~= seq![x[0]] + xs);
        assert(y =~= seq![y[0]] + ys);
    }
}

/// Puts `id` at its place in a strictly sorted list that does not hold it.
fn insert_sorted(list: &mut Vec<PackageIdentity>, id: PackageIdentity)
    requires
        strictly_sorted(identities(old(list)@)),
        !identities(old(list)@).contains(id@),
    ensures
        strictly_sorted(identities(final(list)@)),
        final(list).len() == old(list).len() + 1,
        forall|x: IdentityView|
            identities(final(list)@).contains(x) <==> identities(old(list)@).contains(x) || x
                == id@,
{
    let ghost before = identities(list@);
    let mut at: usize = 0;
    while at < list.len() && list[at].precedes(&id)
        invariant
            at <= list.len(),
            list@ == old(list)@,
            before == identities(list@),
            forall|k: int| 0 <= k < at ==> identity_lt(#[trigger] before[k], id@),
        decreases list.len() - at,
    {
        at += 1;
    }
    list.insert(at, id);
    proof {
        let after = identities(list@);
        assert(after =~= before.insert(at as int, id@));
        assert forall|a: int, b: int| 0 <= a < b < after.len() implies identity_lt(
            #[trigger] after[a],
            #[trigger] after[b],
        ) by {
            if b < at {
                assert(identity_lt(before[a], before[b]));
            } else if b == at {
                assert(identity_lt(before[a], id@));
            } else if a == at {
                // `id` comes before the entry it was put in front of, and so
                // before all that follow.
                assert(!identity_lt(before[at as int], id@));
                assert(before[at as int] != id@) by {
                    assert(before.contains(before[at as int]));
                }
                law_identity_lt_total(id@, before[at as int]);
                if b - 1 > at {
                    assert(identity_lt(before[at as int], before[b - 1]));
                    law_identity_lt_transitive(id@, before[at as int], before[b - 1]);
                }
            } else if a < at {
                assert(identity_lt(before[a], before[b - 1]));
            } else {
                assert(identity_lt(before[a - 1], before[b - 1]));
            }
        }
        assert forall|x: IdentityView| after.contains(x) <==> before.contains(x) || x == id@ by {
            if after.contains(x) {
                let k = choose|k: int| 0 <= k < after.len() && after[k] == x;
                if k < at {
                    assert(before[k] == x);
                } else if k > at {
                    assert(before[k - 1] == x);
                }
            }
            if before.contains(x) {
                let k = choose|k: int| 0 <= k < before.len() && before[k] == x;
                if k < at {
                    assert(after[k] == x);
                } else {
                    assert(after[k + 1] == x);
                }
            }
            if x == id@ {
                assert(after[at as int] == x);
            }
        }
    }
}

/// Whether the node at `h` shares its name with another node of the list.
fn name_is_shared(nodes: &Vec<PackageIdentity>, h: usize) -> (r: bool)
    requires
        h < nodes.len(),
    ensures
        r == shares_name(identities(nodes@), h as int),
{
    let mut other: usize = 0;
    while other < nodes.len()
        invariant
            h < nodes.len(),
            other <= nodes.len(),
            forall|k: int|
                0 <= k < other && k != h ==> (#[trigger] identities(nodes@)[k]).name
                    != identities(nodes@)[h as int].name,
        decreases nodes.len() - other,
    {
        if other != h && nodes[other].name == nodes[h].name {
            assert(identities(nodes@)[other as int].name == identities(nodes@)[h as int].name);
            return true;
        }
        other += 1;
    }
    false
}

/// The identities of the graph whose name is the name of more than one node,
/// in the total order of identities. The list is empty where every node has a
/// name of its own.
pub fn find_duplicates(graph: &DependencyGraph) -> (duplicates: Vec<PackageIdentity>)
    ensures
        strictly_sorted(identities(duplicates@)),
        forall|id: IdentityView|
            identities(duplicates@).contains(id) <==> is_duplicate(graph.node_ids(), id),
        (forall|a: int, b: int|
            0 <= a < b < graph.node_ids().len() ==> graph.node_ids()[a].name
                != graph.node_ids()[b].name) ==> duplicates.len() == 0,
{
    let nodes = graph.nodes();
    let ghost ids = identities(nodes@);
    let mut duplicates: Vec<PackageIdentity> = Vec::new();
    let mut h: usize = 0;
    while h < nodes.len()
        invariant
            h <= nodes.len(),
            ids == identities(nodes@),
            ids.no_duplicates(),
            strictly_sorted(identities(duplicates@)),
            forall|id: IdentityView|
                identities(duplicates@).contains(id) <==> exists|k: int|
                    0 <= k < h && #[trigger] ids[k] == id && shares_name(ids, k),
        decreases nodes.len() - h,
    {
        if name_is_shared(nodes, h) {
            let ghost before = identities(duplicates@);
            proof {
                if before.contains(ids[h as int]) {
                    let k = choose|k: int|
                        0 <= k < h && #[trigger] ids[k] == ids[h as int] && shares_name(ids, k);
                    assert(false);
                }
            }
            insert_sorted(&mut duplicates, nodes[h].clone());
            proof {
                assert forall|id: IdentityView|
                    identities(duplicates@).contains(id) <==> exists|k: int|
                        0 <= k < h + 1 && #[trigger] ids[k] == id && shares_name(ids, k) by {
                    if identities(duplicates@).contains(id) {
                        if before.contains(id) {
                            let k = choose|k: int|
                                0 <= k < h && #[trigger] ids[k] == id && shares_name(ids, k);
                            assert(0 <= k < h + 1 && ids[k] == id && shares_name(ids, k));
                        } else {
                            assert(ids[h as int] == id);
                        }
                    }
                    if exists|k: int|
                        0 <= k < h + 1 && #[trigger] ids[k] == id && shares_name(ids, k) {
                        let k = choose|k: int|
                            0 <= k < h + 1 && #[trigger] ids[k] == id && shares_name(ids, k);
                        if k < h {
                            assert(before.contains(id));
                        }
                    }
                }
            }
        } else {
            proof {
                assert forall|id: IdentityView|
                    identities(duplicates@).contains(id) <==> exists|k: int|
                        0 <= k < h + 1 && #[trigger] ids[k] == id && shares_name(ids, k) by {
                    if identities(duplicates@).contains(id) {
                        let k = choose|k: int|
                            0 <= k < h && #[trigger] ids[k] == id && shares_name(ids, k);
                        assert(0 <= k < h + 1 && ids[k] == id && shares_name(ids, k));
                    }
                    if exists|k: int|
                        0 <= k < h + 1 && #[trigger] ids[k] == id && shares_name(ids, k) {
                        let k = choose|k: int|
                            0 <= k < h + 1 && #[trigger] ids[k] == id && shares_name(ids, k);
                        assert(k < h);
                    }
                }
            }
        }
        h += 1;
    }
    proof {
        if forall|a: int, b: int|
            0 <= a < b < ids.len() ==> ids[a].name != ids[b].name {
            if duplicates.len() > 0 {
                let first = identities(duplicates@)[0];
                assert(identities(duplicates@).contains(first));
                let k = choose|k: int|
                    0 <= k < ids.len() && #[trigger] ids[k] == first && shares_name(ids, k);
                let other = choose|other: int|
                    0 <= other < ids.len() && other != k && (#[trigger] ids[other]).name
                        == ids[k].name;
                if other < k {
                    assert(ids[other].name != ids[k].name);
                } else {
                    assert(ids[k].name != ids[other].name);
                }
            }
        }
    }
    duplicates
}

} // verus!
