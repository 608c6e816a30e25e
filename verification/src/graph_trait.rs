//! The topology-only graph abstraction.
//!
//! A [`GraphType`] stores nodes and directed connections between them; the
//! two spec functions `node_added` and `edge_added` say, per implementation,
//! exactly how one insertion transforms the stored topology, and the proof
//! obligations below them pin down what every implementation has in common.

use vstd::prelude::*;

use crate::adjacency_list::{all_conns, AdjancencyList, Connection};

verus! {

/// A node of the topology: its dense creation-order index.
pub type GraphNode = usize;

/// One stored connection, read back as a full edge record.
#[derive(Debug, Clone, Copy, PartialEq, Eq, Structural)]
pub struct GraphEdge {
    pub source: usize,
    pub target: usize,
    pub uid: usize,
}

/// Every connection of `t` targets an existing node.
pub open spec fn valid_topo(t: Seq<Seq<Connection>>) -> bool {
    forall|i: int, j: int|
        0 <= i < t.len() && 0 <= j < t[i].len() ==> (#[trigger] t[i][j]).node_index < t.len()
}

/// Every connection of `t` carries an edge identifier below `bound`.
pub open spec fn topo_ids_below(t: Seq<Seq<Connection>>, bound: int) -> bool {
    forall|i: int, j: int|
        0 <= i < t.len() && 0 <= j < t[i].len() ==> (#[trigger] t[i][j]).edge_index < bound
}

/// The edge record for the connection `c` stored in row `i`.
pub open spec fn edge_of(i: int, c: Connection) -> GraphEdge {
    GraphEdge { source: i as usize, target: c.node_index, uid: c.edge_index }
}

/// Row `node` of `t` as edge records, in insertion order.
pub open spec fn row_edges(t: Seq<Seq<Connection>>, node: int) -> Seq<GraphEdge> {
    t[node].map_values(|c: Connection| edge_of(node, c))
}

/// `(source, connection)` pairs read back as edge records.
pub open spec fn edges_of_conns(s: Seq<(usize, Connection)>) -> Seq<GraphEdge> {
    s.map_values(|p: (usize, Connection)| edge_of(p.0 as int, p.1))
}

/// Every edge record of `t`: rows in node order, each row in insertion order.
pub open spec fn edge_seq(t: Seq<Seq<Connection>>) -> Seq<GraphEdge> {
    edges_of_conns(all_conns(t))
}

/// Walks an adjacency list's edge iterator to the end, collecting every edge
/// record in order.
pub(crate) fn collect_edges(list: &AdjancencyList) -> (v: Vec<GraphEdge>)
    ensures
        v@ == edge_seq(list@),
{
    let mut it = list.edges();
    let mut v: Vec<GraphEdge> = Vec::new();
    proof {
        assert(v@ + edges_of_conns(it.remaining()) =~= edge_seq(list@));
    }
    loop
        invariant_except_break
            it.wf(),
            it.src() == list@,
            v@ + edges_of_conns(it.remaining()) == edge_seq(list@),
        ensures
            v@ == edge_seq(list@),
        decreases it.remaining().len(),
    {
        let ghost rem0 = it.remaining();
        match it.next() {
            Some(p) => {
                let e = GraphEdge { source: p.0, target: p.1.node_index, uid: p.1.edge_index };
                v.push(e);
                proof {
                    assert(edges_of_conns(rem0)[0] == e);
                    assert(edges_of_conns(it.remaining()) =~= edges_of_conns(rem0).drop_first());
                    assert(v@ + edges_of_conns(it.remaining()) =~= edge_seq(list@));
                }
            },
            None => {
                proof {
                    assert(edges_of_conns(rem0).len() == 0);
                    assert(v@ =~= edge_seq(list@));
                }
                break;
            },
        }
    }
    v
}

/// Collects row `node` of an adjacency list as edge records, in insertion
/// order.
pub(crate) fn collect_row_edges(list: &AdjancencyList, node: usize) -> (v: Vec<GraphEdge>)
    requires
        node < list@.len(),
    ensures
        v@ == row_edges(list@, node as int),
{
    let row = list.get_neighbours(node);
    let mut v: Vec<GraphEdge> = Vec::new();
    let mut j: usize = 0;
    while j < row.len()
        invariant
            j <= row.len(),
            row@ == list@[node as int],
            node < list@.len(),
            v@ == row_edges(list@, node as int).take(j as int),
        decreases row.len() - j,
    {
        let c = row[j];
        let e = GraphEdge { source: node, target: c.node_index, uid: c.edge_index };
        v.push(e);
        j = j + 1;
        proof {
            assert(v@ =~= row_edges(list@, node as int).take(j as int));
        }
    }
    proof {
        assert(row_edges(list@, node as int).take(row@.len() as int) =~= row_edges(
            list@,
            node as int,
        ));
    }
    v
}

/// Collects the node indices of an adjacency list, in creation order.
pub(crate) fn collect_nodes(list: &AdjancencyList) -> (v: Vec<GraphNode>)
    ensures
        v@ == Seq::new(list@.len(), |i: int| i as usize),
{
    let n = list.len();
    let mut v: Vec<GraphNode> = Vec::new();
    let mut i: usize = 0;
    while i < n
        invariant
            i <= n,
            n == list@.len(),
            v@ == Seq::new(i as nat, |k: int| k as usize),
        decreases n - i,
    {
        v.push(i);
        i = i + 1;
        proof {
            assert(v@ =~= Seq::new(i as nat, |k: int| k as usize));
        }
    }
    v
}

/// Yields a fixed sequence of nodes, one at a time.
pub struct GraphNodeIterator {
    nodes: Vec<GraphNode>,
    pos: usize,
}

impl GraphNodeIterator {
    /// The whole sequence this iterator was created over.
    pub closed spec fn all(&self) -> Seq<GraphNode> {
        self.nodes@
    }

    /// How many elements have been yielded so far.
    pub closed spec fn at(&self) -> usize {
        self.pos
    }

    pub fn new(nodes: Vec<GraphNode>) -> (it: Self)
        ensures
            it.all() == nodes@,
            it.at() == 0,
    {
        GraphNodeIterator { nodes, pos: 0 }
    }

    pub fn next(&mut self) -> (r: Option<GraphNode>)
        ensures
            final(self).all() == old(self).all(),
            old(self).at() < old(self).all().len() ==> {
                &&& r == Some(old(self).all()[old(self).at() as int])
                &&& final(self).at() == old(self).at() + 1
            },
            old(self).at() >= old(self).all().len() ==> {
                &&& r == None::<GraphNode>
                &&& final(self).at() == old(self).at()
            },
    {
        if self.pos < self.nodes.len() {
            let ret = Some(self.nodes[self.pos]);
            self.pos = self.pos + 1;
            ret
        } else {
            None
        }
    }
}

/// Yields a fixed sequence of edge records, one at a time.
pub struct GraphEdgeIterator {
    edges: Vec<GraphEdge>,
    pos: usize,
}

impl GraphEdgeIterator {
    /// The whole sequence this iterator was created over.
    pub closed spec fn all(&self) -> Seq<GraphEdge> {
        self.edges@
    }

    /// How many elements have been yielded so far.
    pub closed spec fn at(&self) -> usize {
        self.pos
    }

    pub fn new(edges: Vec<GraphEdge>) -> (it: Self)
        ensures
            it.all() == edges@,
            it.at() == 0,
    {
        GraphEdgeIterator { edges, pos: 0 }
    }

    pub fn next(&mut self) -> (r: Option<GraphEdge>)
        ensures
            final(self).all() == old(self).all(),
            old(self).at() < old(self).all().len() ==> {
                &&& r == Some(old(self).all()[old(self).at() as int])
                &&& final(self).at() == old(self).at() + 1
            },
            old(self).at() >= old(self).all().len() ==> {
                &&& r == None::<GraphEdge>
                &&& final(self).at() == old(self).at()
            },
    {
        if self.pos < self.edges.len() {
            let ret = Some(self.edges[self.pos]);
            self.pos = self.pos + 1;
            ret
        } else {
            None
        }
    }
}

/// A topology store. Nodes are dense indices assigned in creation order;
/// `add_edge` may only be called with nodes that already exist.
pub trait GraphType: Sized {
    /// The stored topology: one row of connections per node.
    spec fn topo(&self) -> Seq<Seq<Connection>>;

    /// What one `add_node` call makes of a topology.
    spec fn node_added(pre: Seq<Seq<Connection>>) -> Seq<Seq<Connection>>;

    /// What one `add_edge(source, target, edge_index)` call makes of a
    /// topology.
    spec fn edge_added(
        pre: Seq<Seq<Connection>>,
        source: int,
        target: int,
        edge_index: int,
    ) -> Seq<Seq<Connection>>;

    /// Adding a node grows the topology by exactly one row and keeps every
    /// connection target valid.
    proof fn node_added_facts(pre: Seq<Seq<Connection>>)
        ensures
            Self::node_added(pre).len() == pre.len() + 1,
            valid_topo(pre) ==> valid_topo(Self::node_added(pre)),
    ;

    /// Adding an edge between existing nodes keeps the node count and keeps
    /// every connection target valid.
    proof fn edge_added_facts(pre: Seq<Seq<Connection>>, source: int, target: int, edge_index: int)
        requires
            0 <= source < pre.len(),
            0 <= target < pre.len(),
        ensures
            Self::edge_added(pre, source, target, edge_index).len() == pre.len(),
            valid_topo(pre) ==> valid_topo(Self::edge_added(pre, source, target, edge_index)),
    ;

    fn new() -> (r: Self)
        ensures
            r.topo() == Seq::<Seq<Connection>>::empty(),
    ;

    fn add_node(&mut self) -> (n: GraphNode)
        ensures
            final(self).topo() == Self::node_added(old(self).topo()),
            n == old(self).topo().len(),
    ;

    fn add_edge(&mut self, source: GraphNode, target: GraphNode, edge_index: usize)
        requires
            source < old(self).topo().len(),
            target < old(self).topo().len(),
        ensures
            final(self).topo() == Self::edge_added(
                old(self).topo(),
                source as int,
                target as int,
                edge_index as int,
            ),
    ;

    fn len(&self) -> (n: usize)
        ensures
            n == self.topo().len(),
    ;

    fn get_degree(&self, node: GraphNode) -> (d: usize)
        requires
            node < self.topo().len(),
        ensures
            d == self.topo()[node as int].len(),
    ;

    fn nodes(&self) -> (it: GraphNodeIterator)
        ensures
            it.all() == Seq::new(self.topo().len(), |i: int| i as usize),
            it.at() == 0,
    ;

    fn edges(&self) -> (it: GraphEdgeIterator)
        ensures
            it.all() == edge_seq(self.topo()),
            it.at() == 0,
    ;

    fn get_neighbours(&self, node: GraphNode) -> (it: GraphEdgeIterator)
        requires
            node < self.topo().len(),
        ensures
            it.all() == row_edges(self.topo(), node as int),
            it.at() == 0,
    ;
}

} // verus!
