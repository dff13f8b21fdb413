//! The closure resolver: the set of packages that a root reaches along the
//! dependency edges of the followed kinds, replacements applied.

use vstd::prelude::*;
use crate::error::ResolveError;
use crate::identity::{identities, IdentityView, PackageIdentity};
use crate::metadata::{DependencyKind, PackageRecord, Provider};
use crate::platform::Predicate;
use crate::reach::{
    lemma_closed_holds_reachable, lemma_reaches_monotone, lemma_reaches_self, lemma_reaches_step,
    reaches,
};

verus! {

/// Whether the closure follows edges of the given kind: normal ones always,
/// development ones on request, build ones never.
pub open spec fn followed(kind: DependencyKind, include_dev: bool) -> bool {
    kind == DependencyKind::Normal || (include_dev && kind == DependencyKind::Development)
}

/// The step relation of the closure: an edge of a followed kind, whatever
/// platform it is limited to.
pub open spec fn closure_step(provider: Provider, include_dev: bool) -> spec_fn(
    IdentityView,
    IdentityView,
) -> bool {
    |a: IdentityView, b: IdentityView|
        exists|kind: DependencyKind, platform: Option<Predicate>| #[trigger]
            provider.edge(a, b, kind, platform) && followed(kind, include_dev)
}

/// Whether `id` lies in the closure of `root`.
pub open spec fn in_closure(
    provider: Provider,
    include_dev: bool,
    root: IdentityView,
    id: IdentityView,
) -> bool {
    reaches(closure_step(provider, include_dev), root, id)
}

/// Whether the closure of `root` has no defect: the provider describes every
/// package in it, and each of their resolved dependencies fulfils a recorded
/// specification.
pub open spec fn closure_is_sound(provider: Provider, include_dev: bool, root: IdentityView) -> bool {
    &&& forall|id: IdentityView|
        in_closure(provider, include_dev, root, id) ==> provider.knows(id)
    &&& forall|p: IdentityView, d: IdentityView|
        in_closure(provider, include_dev, root, p) ==> !provider.unmatched(p, d)
}

/// Whether `e` names a defect of the closure of `root`.
pub open spec fn is_closure_defect(
    provider: Provider,
    include_dev: bool,
    root: IdentityView,
    e: ResolveError,
) -> bool {
    match e {
        ResolveError::MetadataLookupError { missing } => {
            &&& in_closure(provider, include_dev, root, missing@)
            &&& !provider.knows(missing@)
        },
        ResolveError::DependencyLookupError { package, dependency } => {
            &&& in_closure(provider, include_dev, root, package@)
            &&& provider.unmatched(package@, dependency@)
        },
    }
}

/// Computes the closure of `root`: the packages that it reaches along the
/// edges of the followed kinds, each once, `root` among them. The walk is
/// depth-first over an explicit stack, and a set of visited records keeps it
/// finite where the edges form a cycle. It fails where the closure has a
/// defect, and names one.
pub fn resolve_closure(provider: &Provider, root: &PackageIdentity, include_dev: bool) -> (r:
    Result<Vec<PackageIdentity>, ResolveError>)
    ensures
        match r {
            Ok(closure) => {
                &&& closure_is_sound(*provider, include_dev, root@)
                &&& identities(closure@).no_duplicates()
                &&& forall|id: IdentityView|
                    identities(closure@).contains(id) <==> in_closure(
                        *provider,
                        include_dev,
                        root@,
                        id,
                    )
            },
            Err(e) => is_closure_defect(*provider, include_dev, root@, e),
        },
{
    let ghost step = closure_step(*provider, include_dev);
    proof {
        lemma_reaches_self(step, root@);
    }
    let start = match provider.find(root) {
        Some(i) => i,
        None => {
            return Err(ResolveError::MetadataLookupError { missing: root.clone() });
        },
    };
    let n = provider.packages.len();
    let mut seen: Vec<bool> = vec![false; n];
    let mut result: Vec<PackageIdentity> = Vec::new();
    let mut stack: Vec<usize> = Vec::new();
    stack.push(start);
    let ghost mut order: Seq<int> = Seq::empty();
    proof {
        provider.lemma_position(start as int, root@);
        assert(stack@[0] == start);
    }
    while stack.len() > 0
        invariant
            n == provider.packages.len(),
            step == closure_step(*provider, include_dev),
            walk_state(*provider, include_dev, root@, seen@, stack@, order, result@),
            others_settled(*provider, include_dev, seen@, stack@, -1),
        decreases n - order.len(), stack.len(),
    {
        proof {
            lemma_places_bounded(order, n as int);
        }
        let ghost seen_before = seen@;
        let ghost stack_before = stack@;
        let i = stack.pop().unwrap();
        assert(sound_index(*provider, include_dev, root@, stack_before[stack_before.len() - 1] as int));
        if seen[i] {
            proof {
                assert forall|t: int| marked(seen_before, stack_before, t) implies marked(
                    seen@,
                    stack@,
                    t,
                ) by {
                    lemma_marked_after_pop(seen_before, stack_before, t);
                }
                lemma_others_settled_monotone(
                    *provider,
                    include_dev,
                    seen_before,
                    stack_before,
                    seen@,
                    stack@,
                    -1,
                    -1,
                );
            }
        } else {
            seen.set(i, true);
            result.push(provider.packages[i].id.clone());
            proof {
                assert(!order.contains(i as int)) by {
                    if order.contains(i as int) {
                        let k = choose|k: int| 0 <= k < order.len() && order[k] == i as int;
                        assert(seen_before[order[k]]);
                    }
                }
                let order_before = order;
                order = order.push(i as int);
                assert(order.no_duplicates());
                assert forall|j: int| 0 <= j < seen@.len() && #[trigger] seen@[j] implies order.contains(
                    j,
                ) by {
                    if j == i {
                        assert(order[order.len() - 1] == i as int);
                    } else {
                        assert(seen_before[j]);
                        let k = choose|k: int| 0 <= k < order_before.len() && order_before[k] == j;
                        assert(order[k] == j);
                    }
                }
                assert forall|t: int| marked(seen_before, stack_before, t) implies marked(
                    seen@,
                    stack@,
                    t,
                ) by {
                    lemma_marked_after_pop(seen_before, stack_before, t);
                }
                lemma_others_settled_monotone(
                    *provider,
                    include_dev,
                    seen_before,
                    stack_before,
                    seen@,
                    stack@,
                    -1,
                    i as int,
                );
                lemma_places_bounded(order, n as int);
            }
            let record = &provider.packages[i];
            let mut d: usize = 0;
            while d < record.dependencies.len()
                invariant
                    n == provider.packages.len(),
                    step == closure_step(*provider, include_dev),
                    i < n,
                    *record == provider.packages[i as int],
                    seen@[i as int],
                    d <= record.dependencies.len(),
                    order.len() <= n,
                    walk_state(*provider, include_dev, root@, seen@, stack@, order, result@),
                    others_settled(*provider, include_dev, seen@, stack@, i as int),
                    settled(*provider, include_dev, seen@, stack@, i as int, d as int),
                decreases record.dependencies.len() - d,
            {
                let dependency = &record.dependencies[d].id;
                let (matched, follow) = record.dependency_use(d, include_dev);
                if !matched {
                    proof {
                        assert(provider.unmatched(record.id@, dependency@));
                    }
                    return Err(
                        ResolveError::DependencyLookupError {
                            package: record.id.clone(),
                            dependency: dependency.clone(),
                        },
                    );
                }
                let ghost stack_mid = stack@;
                if follow {
                    let target = provider.resolve(dependency);
                    proof {
                        lemma_followed_is_step(*provider, include_dev, i as int, d as int);
                        lemma_reaches_step(step, root@, record.id@, target@);
                    }
                    match provider.find(target) {
                        None => {
                            return Err(
                                ResolveError::MetadataLookupError { missing: target.clone() },
                            );
                        },
                        Some(t) => {
                            proof {
                                provider.lemma_position(t as int, target@);
                            }
                            if !seen[t] {
                                stack.push(t);
                                proof {
                                    assert(stack@[stack@.len() - 1] == t);
                                }
                            }
                        },
                    }
                }
                proof {
                    assert forall|t: int| marked(seen@, stack_mid, t) implies marked(
                        seen@,
                        stack@,
                        t,
                    ) by {
                        lemma_marked_after_push(seen@, stack_mid, stack@, t);
                    }
                    lemma_others_settled_monotone(
                        *provider,
                        include_dev,
                        seen@,
                        stack_mid,
                        seen@,
                        stack@,
                        i as int,
                        i as int,
                    );
                    lemma_settled_monotone(
                        *provider,
                        include_dev,
                        seen@,
                        stack_mid,
                        seen@,
                        stack@,
                        i as int,
                        d as int,
                    );
                    let here = provider.packages[i as int];
                    assert forall|x: int| 0 <= x < d + 1 implies {
                        &&& #[trigger] here.is_matched(x)
                        &&& here.is_followed(x, include_dev) ==> {
                            let target = provider.redirect(here.dependencies[x].id@);
                            provider.knows(target) && marked(
                                seen@,
                                stack@,
                                provider.position(target),
                            )
                        }
                    } by {
                        if x < d {
                            assert(here.is_matched(x));
                        } else {
                            assert(record.is_matched(d as int));
                            if follow {
                                let target = provider.redirect(dependency@);
                                assert(provider.knows(target));
                                assert(marked(seen@, stack@, provider.position(target)));
                            }
                        }
                    }
                }
                d += 1;
            }
        }
    }
    proof {
        assert(stack@ == Seq::<usize>::empty());
        lemma_walk_complete(*provider, include_dev, root@, seen@, order, result@);
    }
    Ok(result)
}

/// Computes the closure of `root_package` along normal edges alone.
pub fn resolve_packages(provider: &Provider, root_package: &PackageIdentity) -> (r: Result<
    Vec<PackageIdentity>,
    ResolveError,
>)
    ensures
        match r {
            Ok(packages) => {
                &&& closure_is_sound(*provider, false, root_package@)
                &&& identities(packages@).no_duplicates()
                &&& forall|id: IdentityView|
                    identities(packages@).contains(id) <==> in_closure(
                        *provider,
                        false,
                        root_package@,
                        id,
                    )
            },
            Err(e) => is_closure_defect(*provider, false, root_package@, e),
        },
{
    resolve_closure(provider, root_package, false)
}

/// The closure of a root holds the root.
pub proof fn law_closure_holds_root(provider: Provider, include_dev: bool, root: IdentityView)
    ensures
        in_closure(provider, include_dev, root, root),
{
    lemma_reaches_self(closure_step(provider, include_dev), root);
}

/// Following development edges as well loses no package: what the closure
/// holds without them it holds with them.
pub proof fn law_development_edges_enlarge(provider: Provider, root: IdentityView, id: IdentityView)
    requires
        in_closure(provider, false, root, id),
    ensures
        in_closure(provider, true, root, id),
{
    let narrow = closure_step(provider, false);
    let wide = closure_step(provider, true);
    assert forall|a: IdentityView, b: IdentityView| #[trigger] narrow(a, b) implies wide(a, b) by {
        let (kind, platform) = choose|kind: DependencyKind, platform: Option<Predicate>| #[trigger]
            provider.edge(a, b, kind, platform) && followed(kind, false);
        assert(provider.edge(a, b, kind, platform) && followed(kind, true));
    }
    lemma_reaches_monotone(narrow, wide, root, id);
}

/// The closure is closed under its steps: a followed edge that leaves it
/// leads into it.
pub proof fn law_closure_is_closed(
    provider: Provider,
    include_dev: bool,
    root: IdentityView,
    from: IdentityView,
    to: IdentityView,
    kind: DependencyKind,
    platform: Option<Predicate>,
)
    requires
        in_closure(provider, include_dev, root, from),
        provider.edge(from, to, kind, platform),
        followed(kind, include_dev),
    ensures
        in_closure(provider, include_dev, root, to),
{
    lemma_reaches_step(closure_step(provider, include_dev), root, from, to);
}

impl PackageRecord {
    /// Whether the closure follows the dependency at `d`: a specification
    /// that it fulfils has a followed kind.
    spec fn is_followed(&self, d: int, include_dev: bool) -> bool {
        exists|s: int| #[trigger]
            self.spec_matches(d, s) && followed(self.dependencies[d].specs[s].kind, include_dev)
    }

    /// Looks at the specifications that the dependency at `d` fulfils: whether
    /// there is any, and whether any of them has a followed kind.
    fn dependency_use(&self, d: usize, include_dev: bool) -> (r: (bool, bool))
        requires
            d < self.dependencies.len(),
        ensures
            r.0 == self.is_matched(d as int),
            r.1 == self.is_followed(d as int, include_dev),
    {
        let specs = &self.dependencies[d].specs;
        let mut follow = false;
        let mut s: usize = 0;
        while s < specs.len()
            invariant
                d < self.dependencies.len(),
                *specs == self.dependencies[d as int].specs,
                s <= specs.len(),
                follow == exists|k: int|
                    0 <= k < s && #[trigger] self.spec_matches(d as int, k) && followed(
                        specs[k].kind,
                        include_dev,
                    ),
            decreases specs.len() - s,
        {
            assert(self.spec_matches(d as int, s as int));
            match specs[s].kind {
                DependencyKind::Normal => {
                    follow = true;
                },
                DependencyKind::Development => {
                    if include_dev {
                        follow = true;
                    }
                },
                DependencyKind::Build => {},
            }
            s += 1;
        }
        proof {
            if specs.len() > 0 {
                assert(self.spec_matches(d as int, 0));
            }
        }
        (specs.len() > 0, follow)
    }
}

/// Whether the record at `t` has been visited or waits on the stack.
spec fn marked(seen: Seq<bool>, stack: Seq<usize>, t: int) -> bool {
    &&& 0 <= t < seen.len()
    &&& seen[t] || exists|k: int| 0 <= k < stack.len() && #[trigger] stack[k] == t
}

/// Whether the first `upto` dependencies of the record at `i` are all matched
/// and, where followed, lead to a known package that is marked.
spec fn settled(
    provider: Provider,
    include_dev: bool,
    seen: Seq<bool>,
    stack: Seq<usize>,
    i: int,
    upto: int,
) -> bool {
    forall|d: int|
        0 <= d < upto ==> {
            &&& #[trigger] provider.packages[i].is_matched(d)
            &&& provider.packages[i].is_followed(d, include_dev) ==> {
                let target = provider.redirect(provider.packages[i].dependencies[d].id@);
                provider.knows(target) && marked(seen, stack, provider.position(target))
            }
        }
}

/// Whether the record at `i` is the one that stands for its identity, and the
/// root reaches it.
spec fn sound_index(
    provider: Provider,
    include_dev: bool,
    root: IdentityView,
    i: int,
) -> bool {
    &&& 0 <= i < provider.packages.len()
    &&& provider.is_record_of(i, provider.packages[i].id@)
    &&& in_closure(provider, include_dev, root, provider.packages[i].id@)
}

/// A followed dependency of a record is a step of the closure.
proof fn lemma_followed_is_step(provider: Provider, include_dev: bool, i: int, d: int)
    requires
        provider.is_record_of(i, provider.packages[i].id@),
        0 <= d < provider.packages[i].dependencies.len(),
        provider.packages[i].is_followed(d, include_dev),
    ensures
        closure_step(provider, include_dev)(
            provider.packages[i].id@,
            provider.redirect(provider.packages[i].dependencies[d].id@),
        ),
{
    let record = provider.packages[i];
    let s = choose|s: int| #[trigger]
        record.spec_matches(d, s) && followed(record.dependencies[d].specs[s].kind, include_dev);
    assert(provider.edge(
        record.id@,
        provider.redirect(record.dependencies[d].id@),
        record.dependencies[d].specs[s].kind,
        record.dependencies[d].specs[s].platform,
    ));
}

/// Once no record waits, the visited records are closed under the steps of the
/// closure.
proof fn lemma_visited_closed(
    provider: Provider,
    include_dev: bool,
    seen: Seq<bool>,
    a: IdentityView,
    b: IdentityView,
)
    requires
        seen.len() == provider.packages.len(),
        forall|i: int|
            0 <= i < seen.len() && seen[i] ==> settled(
                provider,
                include_dev,
                seen,
                Seq::<usize>::empty(),
                i,
                provider.packages[i].dependencies.len() as int,
            ),
        provider.knows(a) && seen[provider.position(a)],
        closure_step(provider, include_dev)(a, b),
    ensures
        provider.knows(b) && seen[provider.position(b)],
{
    let (kind, platform) = choose|kind: DependencyKind, platform: Option<Predicate>| #[trigger]
        provider.edge(a, b, kind, platform) && followed(kind, include_dev);
    let (i, d, s) = choose|i: int, d: int, s: int|
        {
            &&& provider.is_record_of(i, a)
            &&& #[trigger] provider.packages[i].spec_matches(d, s)
            &&& provider.redirect(provider.packages[i].dependencies[d].id@) == b
            &&& provider.packages[i].dependencies[d].specs[s].kind == kind
            &&& provider.packages[i].dependencies[d].specs[s].platform == platform
        };
    provider.lemma_position(i, a);
    assert(provider.packages[i].is_followed(d, include_dev));
    assert(settled(
        provider,
        include_dev,
        seen,
        Seq::<usize>::empty(),
        i,
        provider.packages[i].dependencies.len() as int,
    ));
    assert(provider.packages[i].is_matched(d));
}

/// A list of different places below `n` is no longer than `n`.
pub(crate) proof fn lemma_places_bounded(order: Seq<int>, n: int)
    requires
        0 <= n,
        order.no_duplicates(),
        forall|k: int| 0 <= k < order.len() ==> 0 <= #[trigger] order[k] < n,
    ensures
        order.len() <= n,
{
    if n == 0 {
        if order.len() > 0 {
            assert(0 <= order[0] < n);
        }
    } else {
        order.unique_seq_to_set();
        vstd::set_lib::lemma_int_range(0, n);
        assert(order.to_set().subset_of(vstd::set_lib::set_int_range(0, n))) by {
            assert forall|x: int| order.to_set().contains(x) implies vstd::set_lib::set_int_range(
                0,
                n,
            ).contains(x) by {
                let k = choose|k: int| 0 <= k < order.len() && order[k] == x;
                assert(0 <= order[k] < n);
            }
        }
        vstd::set_lib::lemma_len_subset(order.to_set(), vstd::set_lib::set_int_range(0, n));
    }
}

/// Marking more records keeps the settled dependencies of a record settled.
proof fn lemma_settled_monotone(
    provider: Provider,
    include_dev: bool,
    seen: Seq<bool>,
    stack: Seq<usize>,
    seen_after: Seq<bool>,
    stack_after: Seq<usize>,
    i: int,
    upto: int,
)
    requires
        settled(provider, include_dev, seen, stack, i, upto),
        forall|t: int| marked(seen, stack, t) ==> marked(seen_after, stack_after, t),
    ensures
        settled(provider, include_dev, seen_after, stack_after, i, upto),
{
    assert forall|d: int| 0 <= d < upto implies {
        &&& #[trigger] provider.packages[i].is_matched(d)
        &&& provider.packages[i].is_followed(d, include_dev) ==> {
            let target = provider.redirect(provider.packages[i].dependencies[d].id@);
            provider.knows(target) && marked(seen_after, stack_after, provider.position(target))
        }
    } by {
        assert(provider.packages[i].is_matched(d));
        if provider.packages[i].is_followed(d, include_dev) {
            let target = provider.redirect(provider.packages[i].dependencies[d].id@);
            assert(marked(seen, stack, provider.position(target)));
        }
    }
}

/// Whether every visited record but the one at `except` has all its
/// dependencies settled.
spec fn others_settled(
    provider: Provider,
    include_dev: bool,
    seen: Seq<bool>,
    stack: Seq<usize>,
    except: int,
) -> bool {
    forall|i: int|
        0 <= i < seen.len() && #[trigger] seen[i] && i != except ==> settled(
            provider,
            include_dev,
            seen,
            stack,
            i,
            provider.packages[i].dependencies.len() as int,
        )
}

/// Marking more records keeps the visited records settled.
proof fn lemma_others_settled_monotone(
    provider: Provider,
    include_dev: bool,
    seen: Seq<bool>,
    stack: Seq<usize>,
    seen_after: Seq<bool>,
    stack_after: Seq<usize>,
    except: int,
    except_after: int,
)
    requires
        others_settled(provider, include_dev, seen, stack, except),
        seen.len() == seen_after.len(),
        forall|t: int| marked(seen, stack, t) ==> marked(seen_after, stack_after, t),
        forall|i: int|
            0 <= i < seen.len() && seen_after[i] && i != except_after ==> seen[i] && i != except,
    ensures
        others_settled(provider, include_dev, seen_after, stack_after, except_after),
{
    assert forall|i: int|
        0 <= i < seen_after.len() && #[trigger] seen_after[i] && i != except_after implies settled(
        provider,
        include_dev,
        seen_after,
        stack_after,
        i,
        provider.packages[i].dependencies.len() as int,
    ) by {
        assert(seen[i]);
        lemma_settled_monotone(
            provider,
            include_dev,
            seen,
            stack,
            seen_after,
            stack_after,
            i,
            provider.packages[i].dependencies.len() as int,
        );
    }
}

/// What holds of the walk between any two of its steps: `order` lists the
/// visited records in the order of their visit, `result` their identities,
/// and every record that is visited or waits stands for its identity and is
/// reached by the root.
spec fn walk_state(
    provider: Provider,
    include_dev: bool,
    root: IdentityView,
    seen: Seq<bool>,
    stack: Seq<usize>,
    order: Seq<int>,
    result: Seq<PackageIdentity>,
) -> bool {
    &&& seen.len() == provider.packages.len()
    &&& order.no_duplicates()
    &&& forall|k: int|
        0 <= k < order.len() ==> 0 <= #[trigger] order[k] < seen.len() && seen[order[k]]
    &&& forall|i: int| 0 <= i < seen.len() && #[trigger] seen[i] ==> order.contains(i)
    &&& result.len() == order.len()
    &&& forall|k: int|
        0 <= k < order.len() ==> (#[trigger] result[k])@ == provider.packages[order[k]].id@
    &&& forall|i: int|
        0 <= i < seen.len() && #[trigger] seen[i] ==> sound_index(provider, include_dev, root, i)
    &&& forall|k: int|
        0 <= k < stack.len() ==> sound_index(provider, include_dev, root, #[trigger] stack[k] as int)
    &&& provider.knows(root)
    &&& marked(seen, stack, provider.position(root))
}

/// When no record waits any more, the visited identities are the closure,
/// each of them once, and the closure has no defect.
proof fn lemma_walk_complete(
    provider: Provider,
    include_dev: bool,
    root: IdentityView,
    seen: Seq<bool>,
    order: Seq<int>,
    result: Seq<PackageIdentity>,
)
    requires
        walk_state(provider, include_dev, root, seen, Seq::<usize>::empty(), order, result),
        others_settled(provider, include_dev, seen, Seq::<usize>::empty(), -1),
    ensures
        identities(result).no_duplicates(),
        forall|id: IdentityView|
            identities(result).contains(id) <==> in_closure(provider, include_dev, root, id),
        closure_is_sound(provider, include_dev, root),
{
    let step = closure_step(provider, include_dev);
    let inside = |a: IdentityView| provider.knows(a) && seen[provider.position(a)];
    let ids = identities(result);
    assert forall|a: IdentityView, b: IdentityView| inside(a) && #[trigger] step(a, b) implies inside(
        b,
    ) by {
        lemma_visited_closed(provider, include_dev, seen, a, b);
    }
    assert(inside(root));
    assert forall|k1: int, k2: int| 0 <= k1 < ids.len() && 0 <= k2 < ids.len() && k1 != k2 implies ids[k1]
        != ids[k2] by {
        if ids[k1] == ids[k2] {
            assert(result[k1]@ == provider.packages[order[k1]].id@);
            assert(result[k2]@ == provider.packages[order[k2]].id@);
            assert(seen[order[k1]] && seen[order[k2]]);
            provider.lemma_record_unique(order[k1], order[k2], ids[k1]);
        }
    }
    assert forall|id: IdentityView| ids.contains(id) <==> in_closure(
        provider,
        include_dev,
        root,
        id,
    ) by {
        if ids.contains(id) {
            let k = choose|k: int| 0 <= k < ids.len() && ids[k] == id;
            assert(result[k]@ == provider.packages[order[k]].id@);
            assert(seen[order[k]]);
        }
        if in_closure(provider, include_dev, root, id) {
            lemma_closed_holds_reachable(step, inside, root, id);
            let i = provider.position(id);
            assert(provider.is_record_of(i, id));
            assert(seen[i]);
            let k = choose|k: int| 0 <= k < order.len() && order[k] == i;
            assert(result[k]@ == id);
            assert(ids[k] == id);
        }
    }
    assert forall|id: IdentityView| in_closure(provider, include_dev, root, id) implies provider.knows(
        id,
    ) by {
        lemma_closed_holds_reachable(step, inside, root, id);
    }
    assert forall|p: IdentityView, d: IdentityView|
        in_closure(provider, include_dev, root, p) implies !provider.unmatched(p, d) by {
        lemma_closed_holds_reachable(step, inside, root, p);
        if provider.unmatched(p, d) {
            let (i, k) = choose|i: int, k: int|
                {
                    &&& provider.is_record_of(i, p)
                    &&& 0 <= k < provider.packages[i].dependencies.len()
                    &&& #[trigger] provider.packages[i].dependencies[k].id@ == d
                    &&& !provider.packages[i].is_matched(k)
                };
            provider.lemma_position(i, p);
            assert(settled(
                provider,
                include_dev,
                seen,
                Seq::<usize>::empty(),
                i,
                provider.packages[i].dependencies.len() as int,
            ));
            assert(provider.packages[i].is_matched(k));
        }
    }
}

/// A record that was marked stays marked when the last record that waits is
/// taken off the stack and visited.
proof fn lemma_marked_after_pop(seen: Seq<bool>, stack: Seq<usize>, t: int)
    requires
        stack.len() > 0,
        marked(seen, stack, t),
    ensures
        seen[stack.last() as int] || !(0 <= stack.last() < seen.len()) ==> marked(
            seen,
            stack.drop_last(),
            t,
        ),
        0 <= stack.last() < seen.len() ==> marked(
            seen.update(stack.last() as int, true),
            stack.drop_last(),
            t,
        ),
{
    if !seen[t] {
        let k = choose|k: int| 0 <= k < stack.len() && #[trigger] stack[k] == t;
        if k < stack.len() - 1 {
            assert(stack.drop_last()[k] == t);
        }
    }
}

/// A record that was marked stays marked when the stack grows.
proof fn lemma_marked_after_push(seen: Seq<bool>, stack: Seq<usize>, grown: Seq<usize>, t: int)
    requires
        marked(seen, stack, t),
        grown == stack || (exists|x: usize| grown == stack.push(x)),
    ensures
        marked(seen, grown, t),
{
    if !seen[t] && grown != stack {
        let k = choose|k: int| 0 <= k < stack.len() && #[trigger] stack[k] == t;
        assert(grown[k] == t);
    }
}

} // verus!
