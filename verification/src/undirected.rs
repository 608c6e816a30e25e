//! The undirected graph kind: two mirrored connections per edge.

use vstd::prelude::*;

use crate::adjacency_list::{AdjancencyList, Connection};
use crate::graph_trait::{
    collect_edges, collect_nodes, collect_row_edges, valid_topo, GraphEdgeIterator, GraphNode,
    GraphNodeIterator, GraphType,
};

verus! {

/// A topology store whose `add_edge(source, target, ..)` records the two
/// connections `source -> target` and `target -> source`, sharing one edge
/// identifier. A self-loop still records both, so its row grows by two.
pub struct Undirected {
    adjacency_list: AdjancencyList,
}

impl GraphType for Undirected {
    closed spec fn topo(&self) -> Seq<Seq<Connection>> {
        self.adjacency_list@
    }

    open spec fn node_added(pre: Seq<Seq<Connection>>) -> Seq<Seq<Connection>> {
        pre.push(Seq::empty())
    }

    open spec fn edge_added(
        pre: Seq<Seq<Connection>>,
        source: int,
        target: int,
        edge_index: int,
    ) -> Seq<Seq<Connection>> {
        let mid = pre.update(
            source,
            pre[source].push(
                (Connection { node_index: target as usize, edge_index: edge_index as usize }),
            ),
        );
        mid.update(
            target,
            mid[target].push(
                (Connection { node_index: source as usize, edge_index: edge_index as usize }),
            ),
        )
    }

    proof fn node_added_facts(pre: Seq<Seq<Connection>>) {
        let post = Self::node_added(pre);
        if valid_topo(pre) {
            assert forall|i: int, j: int|
                0 <= i < post.len() && 0 <= j < post[i].len() implies (#[trigger] post[i][j]).node_index
                < post.len() by {
                if i < pre.len() {
                    assert(post[i] == pre[i]);
                } else {
                    assert(post[i].len() == 0);
                }
            }
        }
    }

    proof fn edge_added_facts(
        pre: Seq<Seq<Connection>>,
        source: int,
        target: int,
        edge_index: int,
    ) {
        let post = Self::edge_added(pre, source, target, edge_index);
        if valid_topo(pre) {
            assert forall|i: int, j: int|
                0 <= i < post.len() && 0 <= j < post[i].len() implies (#[trigger] post[i][j]).node_index
                < post.len() by {
                if i != source && i != target {
                    assert(post[i] == pre[i]);
                } else {
                    if j < pre[i].len() {
                        assert(post[i][j] == pre[i][j]);
                    }
                }
            }
        }
    }

    fn new() -> (r: Self) {
        Undirected { adjacency_list: AdjancencyList::new() }
    }

    fn add_node(&mut self) -> (n: GraphNode) {
        self.adjacency_list.add_node();
        self.adjacency_list.len() - 1
    }

    fn add_edge(&mut self, source: GraphNode, target: GraphNode, edge_index: usize) {
        self.adjacency_list.add_edge(source, target, edge_index);
        self.adjacency_list.add_edge(target, source, edge_index);
    }

    fn len(&self) -> (n: usize) {
        self.adjacency_list.len()
    }

    fn get_degree(&self, node: GraphNode) -> (d: usize) {
        self.adjacency_list.get_neighbours(node).len()
    }

    fn nodes(&self) -> (it: GraphNodeIterator) {
        GraphNodeIterator::new(collect_nodes(&self.adjacency_list))
    }

    fn edges(&self) -> (it: GraphEdgeIterator) {
        GraphEdgeIterator::new(collect_edges(&self.adjacency_list))
    }

    fn get_neighbours(&self, node: GraphNode) -> (it: GraphEdgeIterator) {
        GraphEdgeIterator::new(collect_row_edges(&self.adjacency_list, node))
    }
}

/// Adding an undirected edge puts the target into the source's row and the
/// source into the target's row, both under the one shared edge identifier;
/// the degree of each endpoint grows by one, and by two for a self-loop,
/// whose row receives both mirrored connections.
pub proof fn lemma_undirected_edge_symmetry(
    pre: Seq<Seq<Connection>>,
    source: int,
    target: int,
    edge_index: int,
)
    requires
        0 <= source < pre.len(),
        0 <= target < pre.len(),
    ensures
        ({
            let post = Undirected::edge_added(pre, source, target, edge_index);
            let to_target = (Connection {
                node_index: target as usize,
                edge_index: edge_index as usize,
            });
            let to_source = (Connection {
                node_index: source as usize,
                edge_index: edge_index as usize,
            });
            &&& post.len() == pre.len()
            &&& source != target ==> post[source] == pre[source].push(to_target) && post[target]
                == pre[target].push(to_source)
            &&& source == target ==> post[source] == pre[source].push(to_target).push(to_source)
            &&& post[source].contains(to_target)
            &&& post[target].contains(to_source)
            &&& source != target ==> post[source].len() == pre[source].len() + 1 && post[target].len()
                == pre[target].len() + 1
            &&& source == target ==> post[source].len() == pre[source].len() + 2
            &&& forall|i: int|
                0 <= i < pre.len() && i != source && i != target ==> post[i] == pre[i]
        }),
{
    let post = Undirected::edge_added(pre, source, target, edge_index);
    let to_target = (Connection {
        node_index: target as usize,
        edge_index: edge_index as usize,
    });
    let to_source = (Connection {
        node_index: source as usize,
        edge_index: edge_index as usize,
    });
    if source != target {
        assert(post[source][pre[source].len() as int] == to_target);
        assert(post[target][pre[target].len() as int] == to_source);
    } else {
        assert(post[source][pre[source].len() as int] == to_target);
        assert(post[source][pre[source].len() as int + 1] == to_source);
    }
}

} // verus!
