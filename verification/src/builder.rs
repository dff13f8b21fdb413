//! The graph builder: a breadth-first walk from the root over the resolved
//! set, which keeps the edges that are active for the target and the flags.

use vstd::prelude::*;
use crate::error::ResolveError;
use crate::graph::{DependencyGraph, Edge};
use crate::identity::{identities, IdentityView, PackageIdentity};
use crate::metadata::{DependencyKind, PackageRecord, Provider};
use crate::platform::{edge_is_active, edge_passes, flag_views, Flag, FlagView, Predicate};
use crate::reach::{lemma_closed_holds_reachable, lemma_reaches_self, lemma_reaches_step, reaches};

verus! {

/// What a graph is built over: the metadata, the identities it is limited
/// to, and the target triple and flags that decide which edges are active.
pub ghost struct Scope {
    pub provider: Provider,
    pub within: Seq<IdentityView>,
    pub target: Option<Seq<char>>,
    pub flags: Seq<FlagView>,
}

impl Scope {
    /// Whether the graph has an edge of the given kind from `a` to `b`: the
    /// metadata has such an edge that is active, and `b` is among the
    /// identities that the graph is limited to.
    pub open spec fn graph_edge(
        &self,
        a: IdentityView,
        b: IdentityView,
        kind: DependencyKind,
    ) -> bool {
        &&& self.within.contains(b)
        &&& exists|platform: Option<Predicate>| #[trigger]
            self.provider.edge(a, b, kind, platform) && edge_is_active(
                platform,
                self.target,
                self.flags,
            )
    }

    /// The step relation of the graph: an edge of any kind.
    pub open spec fn graph_step(&self) -> spec_fn(IdentityView, IdentityView) -> bool {
        |a: IdentityView, b: IdentityView|
            exists|kind: DependencyKind| #[trigger] self.graph_edge(a, b, kind)
    }

    /// Whether the graph of `root` has a node for `id`.
    pub open spec fn in_graph(&self, root: IdentityView, id: IdentityView) -> bool {
        reaches(self.graph_step(), root, id)
    }

    /// Whether the graph of `root` has no defect: the provider describes
    /// every node, and each of their resolved dependencies fulfils a recorded
    /// specification.
    pub open spec fn is_sound(&self, root: IdentityView) -> bool {
        &&& forall|id: IdentityView| self.in_graph(root, id) ==> self.provider.knows(id)
        &&& forall|p: IdentityView, d: IdentityView|
            self.in_graph(root, p) ==> !self.provider.unmatched(p, d)
    }

    /// Whether `e` names a defect of the graph of `root`.
    pub open spec fn is_defect(&self, root: IdentityView, e: ResolveError) -> bool {
        match e {
            ResolveError::MetadataLookupError { missing } => {
                &&& self.in_graph(root, missing@)
                &&& !self.provider.knows(missing@)
            },
            ResolveError::DependencyLookupError { package, dependency } => {
                &&& self.in_graph(root, package@)
                &&& self.provider.unmatched(package@, dependency@)
            },
        }
    }

    /// Whether `g` is the graph of `root`: its first node is the root, its
    /// nodes are what the root reaches along the edges of the graph, each
    /// once, and its edges are the edges of the graph between them, each once.
    pub open spec fn is_graph_of(&self, root: IdentityView, g: DependencyGraph) -> bool {
        let ids = g.node_ids();
        let edges = g.edge_list();
        &&& ids.no_duplicates()
        &&& ids.len() > 0
        &&& ids[0] == root
        &&& forall|id: IdentityView| ids.contains(id) <==> self.in_graph(root, id)
        &&& edges.no_duplicates()
        &&& forall|k: int|
            0 <= k < edges.len() ==> {
                &&& (#[trigger] edges[k]).from < ids.len()
                &&& edges[k].to < ids.len()
                &&& self.graph_edge(ids[edges[k].from as int], ids[edges[k].to as int], edges[k].kind)
            }
        &&& forall|from: usize, to: usize, kind: DependencyKind|
            from < ids.len() && to < ids.len() && self.graph_edge(
                ids[from as int],
                ids[to as int],
                kind,
            ) ==> #[trigger] edge_present(edges, from, to, kind)
    }
}

/// Whether the list holds the edge of the given kind from `from` to `to`.
pub open spec fn edge_present(edges: Seq<Edge>, from: usize, to: usize, kind: DependencyKind) -> bool {
    edges.contains(Edge { from, to, kind })
}

/// The scope that the arguments of the builder describe.
pub open spec fn scope_of(
    provider: Provider,
    resolved_set: Seq<PackageIdentity>,
    active_platform: Option<&str>,
    active_flags: Seq<Flag>,
) -> Scope {
    Scope {
        provider,
        within: identities(resolved_set),
        target: match active_platform {
            Some(triple) => Some(triple@),
            None => None,
        },
        flags: flag_views(active_flags),
    }
}

/// Builds the graph of `root` over the resolved set: breadth-first from the
/// root, a node for each package that is reached, made once, and an edge for
/// each kind of active dependency between two of them, made once. It fails
/// where the graph has a defect, and names one.
pub fn build_graph(
    provider: &Provider,
    resolved_set: &Vec<PackageIdentity>,
    root: &PackageIdentity,
    active_platform: Option<&str>,
    active_flags: &Vec<Flag>,
) -> (r: Result<DependencyGraph, ResolveError>)
    ensures
        match r {
            Ok(g) => {
                &&& scope_of(*provider, resolved_set@, active_platform, active_flags@).is_graph_of(
                    root@,
                    g,
                )
                &&& scope_of(*provider, resolved_set@, active_platform, active_flags@).is_sound(
                    root@,
                )
            },
            Err(e) => scope_of(*provider, resolved_set@, active_platform, active_flags@).is_defect(
                root@,
                e,
            ),
        },
{
    let ghost scope = scope_of(*provider, resolved_set@, active_platform, active_flags@);
    let ghost step = scope.graph_step();
    proof {
        lemma_reaches_self(step, root@);
    }
    let start = match provider.find(root) {
        Some(i) => i,
        None => {
            return Err(ResolveError::MetadataLookupError { missing: root.clone() });
        },
    };
    let n = provider.packages.len();
    let (first, _) = DependencyGraph::new().add_node(root);
    let mut graph = first;
    let mut records: Vec<usize> = Vec::new();
    records.push(start);
    let mut next: usize = 0;
    proof {
        assert(graph.node_ids() =~= seq![root@]);
        assert(graph.edge_list() =~= Seq::<Edge>::empty());
    }
    while next < records.len()
        invariant
            n == provider.packages.len(),
            scope == scope_of(*provider, resolved_set@, active_platform, active_flags@),
            step == scope.graph_step(),
            next <= records.len(),
            build_state(scope, root@, graph.node_ids(), graph.edge_list(), records@),
            nodes_settled(scope, graph.node_ids(), graph.edge_list(), records@, next as int),
        decreases 2 * n - records.len() - next,
    {
        proof {
            lemma_records_bounded(scope, root@, graph.node_ids(), graph.edge_list(), records@);
        }
        assert(provider.is_record_of(records@[next as int] as int, graph.node_ids()[next as int]));
        let i = records[next];
        let record = &provider.packages[i];
        let ghost known = records@.len();
        let mut d: usize = 0;
        while d < record.dependencies.len()
            invariant
                n == provider.packages.len(),
                known <= records@.len(),
                scope == scope_of(*provider, resolved_set@, active_platform, active_flags@),
                step == scope.graph_step(),
                next < records.len(),
                i == records@[next as int],
                i < n,
                *record == provider.packages[i as int],
                d <= record.dependencies.len(),
                build_state(scope, root@, graph.node_ids(), graph.edge_list(), records@),
                nodes_settled(scope, graph.node_ids(), graph.edge_list(), records@, next as int),
                node_settled(
                    scope,
                    graph.node_ids(),
                    graph.edge_list(),
                    records@,
                    next as int,
                    d as int,
                ),
            decreases record.dependencies.len() - d,
        {
            let ghost ids_before = graph.node_ids();
            let ghost edges_before = graph.edge_list();
            let ghost records_before = records@;
            let dependency = &record.dependencies[d].id;
            let active = record.active_kinds(d, active_platform, active_flags);
            if !active.matched {
                proof {
                    assert(provider.is_record_of(i as int, ids_before[next as int]));
                    assert(provider.unmatched(record.id@, dependency@));
                }
                return Err(
                    ResolveError::DependencyLookupError {
                        package: record.id.clone(),
                        dependency: dependency.clone(),
                    },
                );
            }
            let target = provider.resolve(dependency);
            if (active.normal || active.development || active.build) && list_contains(
                resolved_set,
                target,
            ) {
                proof {
                    let kind = if active.normal {
                        DependencyKind::Normal
                    } else if active.development {
                        DependencyKind::Development
                    } else {
                        DependencyKind::Build
                    };
                    assert(active.has(kind));
                    assert(provider.is_record_of(i as int, ids_before[next as int]));
                    lemma_active_is_edge(scope, i as int, d as int, kind);
                    lemma_reaches_step(step, root@, record.id@, target@);
                }
                match provider.find(target) {
                    None => {
                        return Err(ResolveError::MetadataLookupError { missing: target.clone() });
                    },
                    Some(t) => {
                        let to = match graph.find_node(target) {
                            Some(h) => h,
                            None => {
                                let (grown, h) = graph.add_node(target);
                                graph = grown;
                                records.push(t);
                                h
                            },
                        };
                        let ghost ids_mid = graph.node_ids();
                        let ghost edges_mid = graph.edge_list();
                        graph = link(graph, next, to, &active);
                        let nodes = graph.nodes();
                        proof {
                            let ids = graph.node_ids();
                            let edges = graph.edge_list();
                            assert(ids == ids_mid);
                            assert(edges_mid == edges_before);
                            assert(ids[to as int] == target@);
                            assert forall|h: int| 0 <= h < ids.len() implies provider.is_record_of(
                                records@[h] as int,
                                #[trigger] ids[h],
                            ) && scope.in_graph(root@, ids[h]) by {
                                if h < ids_before.len() {
                                    assert(ids[h] == ids_before[h]);
                                    assert(records@[h] == records_before[h]);
                                }
                            }
                            assert forall|k: int| 0 <= k < edges.len() implies {
                                &&& (#[trigger] edges[k]).from < ids.len()
                                &&& edges[k].to < ids.len()
                                &&& scope.graph_edge(
                                    ids[edges[k].from as int],
                                    ids[edges[k].to as int],
                                    edges[k].kind,
                                )
                            } by {
                                let e = edges[k];
                                assert(edges.contains(e));
                                if edges_before.contains(e) {
                                    let j = choose|j: int|
                                        0 <= j < edges_before.len() && edges_before[j] == e;
                                    assert(edges_before[j].from < ids_before.len());
                                    assert(ids[e.from as int] == ids_before[e.from as int]);
                                    assert(ids[e.to as int] == ids_before[e.to as int]);
                                } else {
                                    lemma_active_is_edge(scope, i as int, d as int, e.kind);
                                    assert(ids[next as int] == ids_before[next as int]);
                                }
                            }
                            assert forall|kind: DependencyKind| #[trigger]
                                record.kind_is_active(
                                    d as int,
                                    kind,
                                    scope.target,
                                    scope.flags,
                                ) implies linked(ids, edges, next as int, target@, kind) by {
                                assert(active.has(kind));
                                assert(edge_present(edges, next, to, kind));
                            }
                        }
                    },
                }
            }
            proof {
                let ids = graph.node_ids();
                let edges = graph.edge_list();
                assert(record.is_matched(d as int));
                assert(target@ == scope.provider.redirect(record.dependencies[d as int].id@));
                if scope.within.contains(target@) {
                    assert forall|kind: DependencyKind| #[trigger]
                        record.kind_is_active(
                            d as int,
                            kind,
                            scope.target,
                            scope.flags,
                        ) implies linked(ids, edges, next as int, target@, kind) by {
                        assert(active.has(kind));
                    }
                }
                assert(dependency_settled(scope, ids, edges, next as int, i as int, d as int));
                assert forall|h: int| 0 <= h < next implies #[trigger] node_settled(
                    scope,
                    ids,
                    edges,
                    records@,
                    h,
                    scope.provider.packages[records@[h] as int].dependencies.len() as int,
                ) by {
                    assert(node_settled(
                        scope,
                        ids_before,
                        edges_before,
                        records_before,
                        h,
                        scope.provider.packages[records_before[h] as int].dependencies.len() as int,
                    ));
                    lemma_settled_in_grown(
                        scope,
                        ids_before,
                        edges_before,
                        ids,
                        edges,
                        records_before,
                        records@,
                        h,
                        scope.provider.packages[records_before[h] as int].dependencies.len() as int,
                    );
                }
                lemma_settled_in_grown(
                    scope,
                    ids_before,
                    edges_before,
                    ids,
                    edges,
                    records_before,
                    records@,
                    next as int,
                    d as int,
                );
                assert forall|x: int| 0 <= x < d + 1 implies #[trigger] dependency_settled(
                    scope,
                    ids,
                    edges,
                    next as int,
                    records@[next as int] as int,
                    x,
                ) by {
                    if x < d {
                        assert(dependency_settled(
                            scope,
                            ids,
                            edges,
                            next as int,
                            records@[next as int] as int,
                            x,
                        ));
                    }
                }
            }
            d += 1;
        }
        proof {
            lemma_records_bounded(scope, root@, graph.node_ids(), graph.edge_list(), records@);
        }
        next += 1;
    }
    proof {
        lemma_build_complete(scope, root@, graph, records@);
    }
    Ok(graph)
}

/// Every node of a graph but its root is among the identities that the
/// graph is limited to.
pub proof fn law_graph_stays_within(scope: Scope, root: IdentityView, id: IdentityView)
    requires
        scope.in_graph(root, id),
    ensures
        id == root || scope.within.contains(id),
{
    let step = scope.graph_step();
    let inside = |a: IdentityView| a == root || scope.within.contains(a);
    assert forall|a: IdentityView, b: IdentityView| inside(a) && #[trigger] step(a, b) implies inside(
        b,
    ) by {
        let kind = choose|kind: DependencyKind| #[trigger] scope.graph_edge(a, b, kind);
        assert(scope.graph_edge(a, b, kind));
    }
    lemma_closed_holds_reachable(step, inside, root, id);
}

/// An edge of a graph is an edge of the metadata: filtering by platform and
/// limiting to the resolved set only ever take edges away.
pub proof fn law_graph_edge_is_metadata_edge(
    scope: Scope,
    a: IdentityView,
    b: IdentityView,
    kind: DependencyKind,
)
    requires
        scope.graph_edge(a, b, kind),
    ensures
        exists|platform: Option<Predicate>| #[trigger] scope.provider.edge(a, b, kind, platform),
{
    let platform = choose|platform: Option<Predicate>| #[trigger]
        scope.provider.edge(a, b, kind, platform) && edge_is_active(
            platform,
            scope.target,
            scope.flags,
        );
    assert(scope.provider.edge(a, b, kind, platform));
}

/// Which kinds of edge a resolved dependency gives rise to.
struct ActiveKinds {
    /// Whether the dependency fulfils any recorded specification.
    matched: bool,
    normal: bool,
    development: bool,
    build: bool,
}

impl ActiveKinds {
    /// Whether the dependency gives rise to an edge of the kind.
    spec fn has(&self, kind: DependencyKind) -> bool {
        match kind {
            DependencyKind::Normal => self.normal,
            DependencyKind::Development => self.development,
            DependencyKind::Build => self.build,
        }
    }
}

impl PackageRecord {
    /// Whether a specification that the dependency at `d` fulfils has the
    /// kind and is active for the target and the flags.
    spec fn kind_is_active(
        &self,
        d: int,
        kind: DependencyKind,
        target: Option<Seq<char>>,
        flags: Seq<FlagView>,
    ) -> bool {
        exists|s: int| #[trigger]
            self.spec_matches(d, s) && self.dependencies[d].specs[s].kind == kind
                && edge_is_active(self.dependencies[d].specs[s].platform, target, flags)
    }

    /// Looks at the specifications that the dependency at `d` fulfils: whether
    /// there is any, and of which kinds the active ones are.
    fn active_kinds(&self, d: usize, target: Option<&str>, flags: &Vec<Flag>) -> (r:
        ActiveKinds)
        requires
            d < self.dependencies.len(),
        ensures
            r.matched == self.is_matched(d as int),
            forall|kind: DependencyKind|
                r.has(kind) == self.kind_is_active(
                    d as int,
                    kind,
                    match target {
                        Some(triple) => Some(triple@),
                        None => None,
                    },
                    flag_views(flags@),
                ),
    {
        let ghost triple = match target {
            Some(triple) => Some(triple@),
            None => None,
        };
        let specs = &self.dependencies[d].specs;
        let mut r = ActiveKinds {
            matched: specs.len() > 0,
            normal: false,
            development: false,
            build: false,
        };
        let mut s: usize = 0;
        while s < specs.len()
            invariant
                d < self.dependencies.len(),
                *specs == self.dependencies[d as int].specs,
                s <= specs.len(),
                triple == match target {
                    Some(triple) => Some(triple@),
                    None => None,
                },
                r.matched == (specs.len() > 0),
                forall|kind: DependencyKind|
                    r.has(kind) == exists|k: int|
                        0 <= k < s && #[trigger] self.spec_matches(d as int, k) && specs[k].kind
                            == kind && edge_is_active(specs[k].platform, triple, flag_views(flags@)),
            decreases specs.len() - s,
        {
            let ghost before = r;
            assert(self.spec_matches(d as int, s as int));
            if edge_passes(&specs[s].platform, target, flags) {
                match specs[s].kind {
                    DependencyKind::Normal => {
                        r.normal = true;
                    },
                    DependencyKind::Development => {
                        r.development = true;
                    },
                    DependencyKind::Build => {
                        r.build = true;
                    },
                }
            }
            proof {
                assert forall|kind: DependencyKind|
                    r.has(kind) == exists|k: int|
                        0 <= k < s + 1 && #[trigger] self.spec_matches(d as int, k)
                            && specs[k].kind == kind && edge_is_active(
                            specs[k].platform,
                            triple,
                            flag_views(flags@),
                        ) by {
                    let now = exists|k: int|
                        0 <= k < s + 1 && #[trigger] self.spec_matches(d as int, k)
                            && specs[k].kind == kind && edge_is_active(
                            specs[k].platform,
                            triple,
                            flag_views(flags@),
                        );
                    let earlier = exists|k: int|
                        0 <= k < s && #[trigger] self.spec_matches(d as int, k) && specs[k].kind
                            == kind && edge_is_active(specs[k].platform, triple, flag_views(flags@));
                    assert(before.has(kind) == earlier);
                    let here = specs[s as int].kind == kind && edge_is_active(
                        specs[s as int].platform,
                        triple,
                        flag_views(flags@),
                    );
                    assert(r.has(kind) == (before.has(kind) || here));
                    if now {
                        let k = choose|k: int|
                            0 <= k < s + 1 && #[trigger] self.spec_matches(d as int, k)
                                && specs[k].kind == kind && edge_is_active(
                                specs[k].platform,
                                triple,
                                flag_views(flags@),
                            );
                        if k < s {
                            assert(earlier);
                        }
                    }
                }
            }
            s += 1;
        }
        proof {
            if specs.len() > 0 {
                assert(self.spec_matches(d as int, 0));
            }
        }
        r
    }
}

/// Whether `id` is in the list.
fn list_contains(list: &Vec<PackageIdentity>, id: &PackageIdentity) -> (r: bool)
    ensures
        r == identities(list@).contains(id@),
{
    let mut k: usize = 0;
    while k < list.len()
        invariant
            k <= list.len(),
            forall|j: int| 0 <= j < k ==> identities(list@)[j] != id@,
        decreases list.len() - k,
    {
        if list[k].same(id) {
            assert(identities(list@)[k as int] == id@);
            return true;
        }
        k += 1;
    }
    false
}

/// Adds to the graph the edges from `from` to `to` of the kinds that the
/// dependency gives rise to.
fn link(graph: DependencyGraph, from: usize, to: usize, active: &ActiveKinds) -> (g:
    DependencyGraph)
    requires
        from < graph.node_ids().len(),
        to < graph.node_ids().len(),
    ensures
        g.node_ids() == graph.node_ids(),
        graph.edge_list().no_duplicates() ==> g.edge_list().no_duplicates(),
        forall|e: Edge| graph.edge_list().contains(e) ==> g.edge_list().contains(e),
        forall|e: Edge|
            g.edge_list().contains(e) ==> graph.edge_list().contains(e) || (e.from == from && e.to
                == to && active.has(e.kind)),
        forall|kind: DependencyKind|
            active.has(kind) ==> #[trigger] edge_present(g.edge_list(), from, to, kind),
{
    let mut g = graph;
    if active.normal {
        let ghost before = g.edge_list();
        g = g.add_edge(from, to, DependencyKind::Normal);
        proof {
            lemma_edge_added(before, g.edge_list(), Edge { from, to, kind: DependencyKind::Normal });
        }
    }
    if active.development {
        let ghost before = g.edge_list();
        g = g.add_edge(from, to, DependencyKind::Development);
        proof {
            lemma_edge_added(
                before,
                g.edge_list(),
                Edge { from, to, kind: DependencyKind::Development },
            );
        }
    }
    if active.build {
        let ghost before = g.edge_list();
        g = g.add_edge(from, to, DependencyKind::Build);
        proof {
            lemma_edge_added(before, g.edge_list(), Edge { from, to, kind: DependencyKind::Build });
        }
    }
    g
}

/// What a list of edges holds once an edge was added to it, unless it held
/// the edge already.
proof fn lemma_edge_added(before: Seq<Edge>, after: Seq<Edge>, edge: Edge)
    requires
        before.contains(edge) ==> after == before,
        !before.contains(edge) ==> after == before.push(edge),
    ensures
        after.contains(edge),
        before.no_duplicates() ==> after.no_duplicates(),
        forall|e: Edge| before.contains(e) ==> after.contains(e),
        forall|e: Edge| after.contains(e) ==> before.contains(e) || e == edge,
{
    if !before.contains(edge) {
        assert(after[after.len() - 1] == edge);
        assert forall|e: Edge| before.contains(e) implies after.contains(e) by {
            let k = choose|k: int| 0 <= k < before.len() && before[k] == e;
            assert(after[k] == e);
        }
        assert forall|e: Edge| after.contains(e) implies before.contains(e) || e == edge by {
            let k = choose|k: int| 0 <= k < after.len() && after[k] == e;
            if k < before.len() {
                assert(before[k] == e);
            }
        }
        if before.no_duplicates() {
            assert forall|a: int, b: int|
                0 <= a < after.len() && 0 <= b < after.len() && a != b implies after[a]
                != after[b] by {
                if a < before.len() && b < before.len() {
                    assert(before[a] != before[b]);
                } else if a < before.len() {
                    assert(before.contains(before[a]));
                } else {
                    assert(before.contains(before[b]));
                }
            }
        }
    }
}

/// Whether the partial graph has a node for `target` and an edge of the kind
/// from the node `h` to it.
spec fn linked(
    ids: Seq<IdentityView>,
    edges: Seq<Edge>,
    h: int,
    target: IdentityView,
    kind: DependencyKind,
) -> bool {
    exists|to: int|
        0 <= to < ids.len() && #[trigger] ids[to] == target && edge_present(
            edges,
            h as usize,
            to as usize,
            kind,
        )
}

/// Whether the dependency at `d` of the record at `i`, which is the record of
/// the node `h`, is matched and has all its edges in the partial graph.
spec fn dependency_settled(
    scope: Scope,
    ids: Seq<IdentityView>,
    edges: Seq<Edge>,
    h: int,
    i: int,
    d: int,
) -> bool {
    let record = scope.provider.packages[i];
    let target = scope.provider.redirect(record.dependencies[d].id@);
    &&& record.is_matched(d)
    &&& scope.within.contains(target) ==> forall|kind: DependencyKind| #[trigger]
        record.kind_is_active(d, kind, scope.target, scope.flags) ==> linked(
            ids,
            edges,
            h,
            target,
            kind,
        )
}

/// Whether the first `upto` dependencies of the node `h` are settled.
spec fn node_settled(
    scope: Scope,
    ids: Seq<IdentityView>,
    edges: Seq<Edge>,
    records: Seq<usize>,
    h: int,
    upto: int,
) -> bool {
    forall|d: int|
        0 <= d < upto ==> #[trigger] dependency_settled(scope, ids, edges, h, records[h] as int, d)
}

/// Whether the nodes before `next` have all their dependencies settled.
spec fn nodes_settled(
    scope: Scope,
    ids: Seq<IdentityView>,
    edges: Seq<Edge>,
    records: Seq<usize>,
    next: int,
) -> bool {
    forall|h: int|
        0 <= h < next ==> #[trigger] node_settled(
            scope,
            ids,
            edges,
            records,
            h,
            scope.provider.packages[records[h] as int].dependencies.len() as int,
        )
}

/// What holds of the partial graph between any two steps of the walk.
spec fn build_state(
    scope: Scope,
    root: IdentityView,
    ids: Seq<IdentityView>,
    edges: Seq<Edge>,
    records: Seq<usize>,
) -> bool {
    &&& ids.no_duplicates()
    &&& records.len() == ids.len()
    &&& ids.len() > 0
    &&& ids[0] == root
    &&& forall|h: int|
        0 <= h < ids.len() ==> scope.provider.is_record_of(records[h] as int, #[trigger] ids[h])
            && scope.in_graph(root, ids[h])
    &&& edges.no_duplicates()
    &&& forall|k: int|
        0 <= k < edges.len() ==> {
            &&& (#[trigger] edges[k]).from < ids.len()
            &&& edges[k].to < ids.len()
            &&& scope.graph_edge(ids[edges[k].from as int], ids[edges[k].to as int], edges[k].kind)
        }
}

/// A partial graph that grows keeps what was settled in it.
proof fn lemma_settled_in_grown(
    scope: Scope,
    ids: Seq<IdentityView>,
    edges: Seq<Edge>,
    ids_after: Seq<IdentityView>,
    edges_after: Seq<Edge>,
    records: Seq<usize>,
    records_after: Seq<usize>,
    h: int,
    upto: int,
)
    requires
        node_settled(scope, ids, edges, records, h, upto),
        0 <= h < records.len() <= records_after.len(),
        records_after[h] == records[h],
        ids.len() <= ids_after.len(),
        forall|k: int| 0 <= k < ids.len() ==> ids_after[k] == ids[k],
        forall|e: Edge| edges.contains(e) ==> edges_after.contains(e),
    ensures
        node_settled(scope, ids_after, edges_after, records_after, h, upto),
{
    let i = records[h] as int;
    let record = scope.provider.packages[i];
    assert forall|d: int| 0 <= d < upto implies #[trigger] dependency_settled(
        scope,
        ids_after,
        edges_after,
        h,
        i,
        d,
    ) by {
        assert(dependency_settled(scope, ids, edges, h, i, d));
        let target = scope.provider.redirect(record.dependencies[d].id@);
        if scope.within.contains(target) {
            assert forall|kind: DependencyKind| #[trigger]
                record.kind_is_active(d, kind, scope.target, scope.flags) implies linked(
                ids_after,
                edges_after,
                h,
                target,
                kind,
            ) by {
                assert(linked(ids, edges, h, target, kind));
                let to = choose|to: int|
                    0 <= to < ids.len() && #[trigger] ids[to] == target && edge_present(
                        edges,
                        h as usize,
                        to as usize,
                        kind,
                    );
                assert(ids_after[to] == target);
                assert(edge_present(edges_after, h as usize, to as usize, kind));
            }
        }
    }
}

/// An active specification of a dependency of the record of `a`, whose target
/// the graph is limited to, is an edge of the graph.
proof fn lemma_active_is_edge(scope: Scope, i: int, d: int, kind: DependencyKind)
    requires
        scope.provider.is_record_of(i, scope.provider.packages[i].id@),
        0 <= d < scope.provider.packages[i].dependencies.len(),
        scope.provider.packages[i].kind_is_active(d, kind, scope.target, scope.flags),
        scope.within.contains(scope.provider.redirect(scope.provider.packages[i].dependencies[d].id@)),
    ensures
        scope.graph_edge(
            scope.provider.packages[i].id@,
            scope.provider.redirect(scope.provider.packages[i].dependencies[d].id@),
            kind,
        ),
        scope.graph_step()(
            scope.provider.packages[i].id@,
            scope.provider.redirect(scope.provider.packages[i].dependencies[d].id@),
        ),
{
    let record = scope.provider.packages[i];
    let s = choose|s: int| #[trigger]
        record.spec_matches(d, s) && record.dependencies[d].specs[s].kind == kind && edge_is_active(
            record.dependencies[d].specs[s].platform,
            scope.target,
            scope.flags,
        );
    assert(scope.provider.edge(
        record.id@,
        scope.provider.redirect(record.dependencies[d].id@),
        kind,
        record.dependencies[d].specs[s].platform,
    ));
    assert(scope.graph_edge(record.id@, scope.provider.redirect(record.dependencies[d].id@), kind));
}

/// An edge of the graph that leaves a settled node is in the partial graph,
/// and so is the node it leads to.
proof fn lemma_edge_of_settled(
    scope: Scope,
    root: IdentityView,
    ids: Seq<IdentityView>,
    edges: Seq<Edge>,
    records: Seq<usize>,
    h: int,
    b: IdentityView,
    kind: DependencyKind,
)
    requires
        build_state(scope, root, ids, edges, records),
        nodes_settled(scope, ids, edges, records, ids.len() as int),
        0 <= h < ids.len(),
        scope.graph_edge(ids[h], b, kind),
    ensures
        linked(ids, edges, h, b, kind),
{
    let provider = scope.provider;
    let a = ids[h];
    let platform = choose|platform: Option<Predicate>| #[trigger]
        provider.edge(a, b, kind, platform) && edge_is_active(platform, scope.target, scope.flags);
    let (i, d, s) = choose|i: int, d: int, s: int|
        {
            &&& provider.is_record_of(i, a)
            &&& #[trigger] provider.packages[i].spec_matches(d, s)
            &&& provider.redirect(provider.packages[i].dependencies[d].id@) == b
            &&& provider.packages[i].dependencies[d].specs[s].kind == kind
            &&& provider.packages[i].dependencies[d].specs[s].platform == platform
        };
    provider.lemma_record_unique(i, records[h] as int, a);
    assert(node_settled(
        scope,
        ids,
        edges,
        records,
        h,
        provider.packages[records[h] as int].dependencies.len() as int,
    ));
    assert(dependency_settled(scope, ids, edges, h, i, d));
    assert(provider.packages[i].kind_is_active(d, kind, scope.target, scope.flags));
}

/// Once every node is settled, the partial graph is the graph of the root,
/// and that graph has no defect.
proof fn lemma_build_complete(
    scope: Scope,
    root: IdentityView,
    g: DependencyGraph,
    records: Seq<usize>,
)
    requires
        build_state(scope, root, g.node_ids(), g.edge_list(), records),
        nodes_settled(scope, g.node_ids(), g.edge_list(), records, g.node_ids().len() as int),
    ensures
        scope.is_graph_of(root, g),
        scope.is_sound(root),
{
    let ids = g.node_ids();
    let edges = g.edge_list();
    let step = scope.graph_step();
    let inside = |a: IdentityView| ids.contains(a);
    assert(ids.contains(ids[0]));
    assert forall|a: IdentityView, b: IdentityView| inside(a) && #[trigger] step(a, b) implies inside(
        b,
    ) by {
        let h = choose|h: int| 0 <= h < ids.len() && ids[h] == a;
        let kind = choose|kind: DependencyKind| #[trigger] scope.graph_edge(a, b, kind);
        lemma_edge_of_settled(scope, root, ids, edges, records, h, b, kind);
    }
    assert forall|id: IdentityView| ids.contains(id) <==> scope.in_graph(root, id) by {
        if ids.contains(id) {
            let h = choose|h: int| 0 <= h < ids.len() && ids[h] == id;
            assert(scope.in_graph(root, ids[h]));
        }
        if scope.in_graph(root, id) {
            lemma_closed_holds_reachable(step, inside, root, id);
        }
    }
    assert forall|from: usize, to: usize, kind: DependencyKind|
        from < ids.len() && to < ids.len() && scope.graph_edge(
            ids[from as int],
            ids[to as int],
            kind,
        ) implies #[trigger] edge_present(edges, from, to, kind) by {
        lemma_edge_of_settled(scope, root, ids, edges, records, from as int, ids[to as int], kind);
        let other = choose|other: int|
            0 <= other < ids.len() && #[trigger] ids[other] == ids[to as int] && edge_present(
                edges,
                from,
                other as usize,
                kind,
            );
        assert(other == to);
    }
    assert forall|id: IdentityView| scope.in_graph(root, id) implies scope.provider.knows(id) by {
        lemma_closed_holds_reachable(step, inside, root, id);
        let h = choose|h: int| 0 <= h < ids.len() && ids[h] == id;
        assert(scope.provider.is_record_of(records[h] as int, ids[h]));
    }
    assert forall|p: IdentityView, d: IdentityView| scope.in_graph(root, p) implies
        !scope.provider.unmatched(p, d) by {
        lemma_closed_holds_reachable(step, inside, root, p);
        if scope.provider.unmatched(p, d) {
            let h = choose|h: int| 0 <= h < ids.len() && ids[h] == p;
            let (i, k) = choose|i: int, k: int|
                {
                    &&& scope.provider.is_record_of(i, p)
                    &&& 0 <= k < scope.provider.packages[i].dependencies.len()
                    &&& #[trigger] scope.provider.packages[i].dependencies[k].id@ == d
                    &&& !scope.provider.packages[i].is_matched(k)
                };
            scope.provider.lemma_record_unique(i, records[h] as int, p);
            assert(node_settled(
                scope,
                ids,
                edges,
                records,
                h,
                scope.provider.packages[records[h] as int].dependencies.len() as int,
            ));
            assert(dependency_settled(scope, ids, edges, h, i, k));
        }
    }
}

/// The records of the nodes are different records, so there are no more of
/// them than the provider has.
proof fn lemma_records_bounded(
    scope: Scope,
    root: IdentityView,
    ids: Seq<IdentityView>,
    edges: Seq<Edge>,
    records: Seq<usize>,
)
    requires
        build_state(scope, root, ids, edges, records),
    ensures
        records.len() <= scope.provider.packages.len(),
{
    let places = Seq::new(records.len(), |h: int| records[h] as int);
    assert forall|a: int, b: int|
        0 <= a < places.len() && 0 <= b < places.len() && a != b implies places[a]
        != places[b] by {
        assert(scope.provider.is_record_of(records[a] as int, ids[a]));
        assert(scope.provider.is_record_of(records[b] as int, ids[b]));
    }
    assert forall|k: int| 0 <= k < places.len() implies 0 <= #[trigger] places[k]
        < scope.provider.packages.len() by {
        assert(scope.provider.is_record_of(records[k] as int, ids[k]));
    }
    crate::closure::lemma_places_bounded(places, scope.provider.packages.len() as int);
}

} // verus!
