//! The dependency graph: an arena of nodes with integer handles and a list of
//! kind-labelled edges between them.

use vstd::prelude::*;
use crate::identity::{identities, IdentityView, PackageIdentity};
use crate::metadata::DependencyKind;

verus! {

/// A directed edge between two nodes, given by their handles.
#[derive(Clone, Copy, Debug, PartialEq, Eq, Structural)]
pub struct Edge {
    pub from: usize,
    pub to: usize,
    pub kind: DependencyKind,
}

/// A directed graph of packages that may hold cycles. No identity is the
/// node of two handles, and every edge joins two nodes of the graph.
#[derive(Debug)]
pub struct DependencyGraph {
    pub(crate) nodes: Vec<PackageIdentity>,
    pub(crate) edges: Vec<Edge>,
}

impl DependencyGraph {
    /// Whether no identity is the node of two handles and every edge joins two
    /// nodes. It holds of every graph that a program holds.
    #[verifier::type_invariant]
    pub closed spec fn well_formed(&self) -> bool {
        &&& identities(self.nodes@).no_duplicates()
        &&& forall|k: int|
            0 <= k < self.edges.len() ==> (#[trigger] self.edges[k]).from < self.nodes.len()
                && self.edges[k].to < self.nodes.len()
    }

    /// The identities of the nodes, by handle.
    pub closed spec fn node_ids(&self) -> Seq<IdentityView> {
        identities(self.nodes@)
    }

    /// The edges, in the order in which they were added.
    pub closed spec fn edge_list(&self) -> Seq<Edge> {
        self.edges@
    }

    /// In a well-formed graph every edge joins two of its nodes.
    pub proof fn law_edges_join_nodes(self)
        requires
            self.well_formed(),
        ensures
            self.node_ids().no_duplicates(),
            forall|k: int|
                0 <= k < self.edge_list().len() ==> (#[trigger] self.edge_list()[k]).from
                    < self.node_ids().len() && self.edge_list()[k].to < self.node_ids().len(),
    {
    }

    /// A graph without nodes.
    pub fn new() -> (g: DependencyGraph)
        ensures
            g.node_ids().len() == 0,
            g.edge_list().len() == 0,
    {
        DependencyGraph { nodes: Vec::new(), edges: Vec::new() }
    }

    /// The nodes, by handle.
    pub fn nodes(&self) -> (r: &Vec<PackageIdentity>)
        ensures
            identities(r@) == self.node_ids(),
            self.node_ids().no_duplicates(),
    {
        proof {
            use_type_invariant(self);
        }
        &self.nodes
    }

    /// The handle of the node of `id`, if the graph has one.
    pub fn find_node(&self, id: &PackageIdentity) -> (r: Option<usize>)
        ensures
            match r {
                Some(h) => h < self.node_ids().len() && self.node_ids()[h as int] == id@,
                None => !self.node_ids().contains(id@),
            },
    {
        let mut h: usize = 0;
        while h < self.nodes.len()
            invariant
                h <= self.nodes.len(),
                forall|k: int| 0 <= k < h ==> identities(self.nodes@)[k] != id@,
            decreases self.nodes.len() - h,
        {
            if self.nodes[h].same(id) {
                return Some(h);
            }
            h += 1;
        }
        None
    }

    /// The edges, in the order in which they were added.
    pub fn edges(&self) -> (r: &Vec<Edge>)
        ensures
            r@ == self.edge_list(),
            forall|k: int|
                0 <= k < r.len() ==> (#[trigger] r[k]).from < self.node_ids().len() && r[k].to
                    < self.node_ids().len(),
    {
        proof {
            use_type_invariant(self);
        }
        &self.edges
    }

    /// The graph with a node for `id`, and the handle of that node. A graph
    /// that has the node already is handed back as it is.
    pub fn add_node(self, id: &PackageIdentity) -> (r: (DependencyGraph, usize))
        ensures
            self.node_ids().contains(id@) ==> r.0.node_ids() == self.node_ids(),
            !self.node_ids().contains(id@) ==> r.0.node_ids() == self.node_ids().push(id@),
            r.1 < r.0.node_ids().len(),
            r.0.node_ids()[r.1 as int] == id@,
            r.0.edge_list() == self.edge_list(),
    {
        match self.find_node(id) {
            Some(h) => (self, h),
            None => {
                proof {
                    use_type_invariant(&self);
                }
                let DependencyGraph { mut nodes, edges } = self;
                let h = nodes.len();
                let ghost before = nodes@;
                nodes.push(id.clone());
                proof {
                    assert(identities(nodes@) =~= identities(before).push(id@));
                    assert forall|a: int, b: int|
                        0 <= a < nodes.len() && 0 <= b < nodes.len() && a != b implies identities(
                        nodes@,
                    )[a] != identities(nodes@)[b] by {
                        if a < h && b < h {
                            assert(identities(before)[a] != identities(before)[b]);
                        } else if a < h {
                            assert(identities(before)[a] != id@);
                        } else {
                            assert(identities(before)[b] != id@);
                        }
                    }
                }
                (DependencyGraph { nodes, edges }, h)
            },
        }
    }

    /// The graph with an edge of the given kind from `from` to `to`. A graph
    /// that has that edge already is handed back as it is.
    pub fn add_edge(self, from: usize, to: usize, kind: DependencyKind) -> (g: DependencyGraph)
        requires
            from < self.node_ids().len(),
            to < self.node_ids().len(),
        ensures
            g.node_ids() == self.node_ids(),
            self.edge_list().contains(Edge { from, to, kind }) ==> g.edge_list()
                == self.edge_list(),
            !self.edge_list().contains(Edge { from, to, kind }) ==> g.edge_list()
                == self.edge_list().push(Edge { from, to, kind }),
    {
        let edge = Edge { from, to, kind };
        let mut k: usize = 0;
        while k < self.edges.len()
            invariant
                k <= self.edges.len(),
                edge == (Edge { from, to, kind }),
                forall|j: int| 0 <= j < k ==> self.edges[j] != edge,
            decreases self.edges.len() - k,
        {
            if self.edges[k] == edge {
                return self;
            }
            k += 1;
        }
        proof {
            use_type_invariant(&self);
        }
        let DependencyGraph { nodes, mut edges } = self;
        edges.push(edge);
        DependencyGraph { nodes, edges }
    }
}

} // verus!
