//! The directed graph kind: one stored connection per edge.

use vstd::prelude::*;

use crate::adjacency_list::{AdjancencyList, Connection};
use crate::graph_trait::{
    collect_edges, collect_nodes, collect_row_edges, valid_topo, GraphEdgeIterator, GraphNode,
    GraphNodeIterator, GraphType,
};

verus! {

/// A topology store whose `add_edge(source, target, ..)` records exactly the
/// one connection `source -> target`.
pub struct Directed {
    adjacency_list: AdjancencyList,
}

impl GraphType for Directed {
    closed spec fn topo(&self) -> Seq<Seq<Connection>> {
        self.adjacency_list@
    }

    open spec fn node_added(pre: Seq<Seq<Connection>>) -> Seq<Seq<Connection>> {
        pre.push(Seq::empty())
    }

    open spec fn edge_added(
        pre: Seq<Seq<Connection>>,
        source: int,
        target: int,
        edge_index: int,
    ) -> Seq<Seq<Connection>> {
        pre.update(
            source,
            pre[source].push(
                (Connection { node_index: target as usize, edge_index: edge_index as usize }),
            ),
        )
    }

    proof fn node_added_facts(pre: Seq<Seq<Connection>>) {
        let post = Self::node_added(pre);
        if valid_topo(pre) {
            assert forall|i: int, j: int|
                0 <= i < post.len() && 0 <= j < post[i].len() implies (#[trigger] post[i][j]).node_index
                < post.len() by {
                if i < pre.len() {
                    assert(post[i] == pre[i]);
                } else {
                    assert(post[i].len() == 0);
                }
            }
        }
    }

    proof fn edge_added_facts(
        pre: Seq<Seq<Connection>>,
        source: int,
        target: int,
        edge_index: int,
    ) {
        let post = Self::edge_added(pre, source, target, edge_index);
        if valid_topo(pre) {
            assert forall|i: int, j: int|
                0 <= i < post.len() && 0 <= j < post[i].len() implies (#[trigger] post[i][j]).node_index
                < post.len() by {
                if i != source {
                    assert(post[i] == pre[i]);
                } else {
                    if j < pre[source].len() {
                        assert(post[i][j] == pre[i][j]);
                    }
                }
            }
        }
    }

    fn new() -> (r: Self) {
        Directed { adjacency_list: AdjancencyList::new() }
    }

    fn add_node(&mut self) -> (n: GraphNode) {
        self.adjacency_list.add_node();
        self.adjacency_list.len() - 1
    }

    fn add_edge(&mut self, source: GraphNode, target: GraphNode, edge_index: usize) {
        self.adjacency_list.add_edge(source, target, edge_index)
    }

    fn len(&self) -> (n: usize) {
        self.adjacency_list.len()
    }

    fn get_degree(&self, node: GraphNode) -> (d: usize) {
        self.adjacency_list.get_neighbours(node).len()
    }

    fn nodes(&self) -> (it: GraphNodeIterator) {
        GraphNodeIterator::new(collect_nodes(&self.adjacency_list))
    }

    fn edges(&self) -> (it: GraphEdgeIterator) {
        GraphEdgeIterator::new(collect_edges(&self.adjacency_list))
    }

    fn get_neighbours(&self, node: GraphNode) -> (it: GraphEdgeIterator) {
        GraphEdgeIterator::new(collect_row_edges(&self.adjacency_list, node))
    }
}

/// Adding a directed edge touches only the source's row, which grows by that
/// one connection: every other row, the target's included, stays exactly what
/// it was, so no reverse connection appears unless it is added explicitly.
pub proof fn lemma_directed_edge_asymmetry(
    pre: Seq<Seq<Connection>>,
    source: int,
    target: int,
    edge_index: int,
)
    requires
        0 <= source < pre.len(),
        0 <= target < pre.len(),
    ensures
        ({
            let post = Directed::edge_added(pre, source, target, edge_index);
            let conn = (Connection {
                node_index: target as usize,
                edge_index: edge_index as usize,
            });
            &&& post.len() == pre.len()
            &&& post[source] == pre[source].push(conn)
            &&& forall|i: int| 0 <= i < pre.len() && i != source ==> post[i] == pre[i]
        }),
{
}

} // verus!
