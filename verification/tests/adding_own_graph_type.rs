// It should be easy to swap out your own GraphType
//
// 1. Import the abstraction

use grapher::adjacency_list::Connection;
use grapher::graph::Graph;
use grapher::graph_trait::{
    GraphEdge, GraphEdgeIterator, GraphNode, GraphNodeIterator, GraphType,
};
use vstd::prelude::{int, Seq};

// 2. Define a new GraphType
//
// MyGraphType is a directed full graph: there exist two directed edges
// between every pair of nodes, materialized at node-insertion time.

struct MyGraphType {
    storage: Vec<Vec<usize>>,
}

// 3. Implement the trait

impl GraphType for MyGraphType {
    // The specification members of GraphType are ghost: they are erased
    // before anything runs, and nothing ever calls them from compiled code.
    // An implementation written outside the verifier only has to satisfy
    // the compiler here; it gets no verified guarantees.
    fn topo(&self) -> Seq<Seq<Connection>> {
        panic!("ghost member, never called at run time")
    }

    fn node_added(_pre: Seq<Seq<Connection>>) -> Seq<Seq<Connection>> {
        panic!("ghost member, never called at run time")
    }

    fn edge_added(
        _pre: Seq<Seq<Connection>>,
        _source: int,
        _target: int,
        _edge_index: int,
    ) -> Seq<Seq<Connection>> {
        panic!("ghost member, never called at run time")
    }

    fn node_added_facts(_pre: Seq<Seq<Connection>>) {}

    fn edge_added_facts(_pre: Seq<Seq<Connection>>, _source: int, _target: int, _edge_index: int) {}

    fn add_node(&mut self) -> GraphNode {
        let new_index = self.storage.len();
        self.storage.push(Vec::new());

        for i in 0..new_index {
            self.storage[i].push(new_index);
            self.storage[new_index].push(i);
        }
        new_index
    }

    fn add_edge(&mut self, _source: GraphNode, _target: GraphNode, _edge_index: usize) {
        panic!("Add edge can't be used for this graph")
    }

    fn nodes(&self) -> GraphNodeIterator {
        let mut all: Vec<GraphNode> = Vec::new();
        for i in 0..self.storage.len() {
            all.push(i);
        }
        GraphNodeIterator::new(all)
    }

    fn edges(&self) -> GraphEdgeIterator {
        let mut all: Vec<GraphEdge> = Vec::new();
        for (source, row) in self.storage.iter().enumerate() {
            for target in row.iter() {
                all.push(GraphEdge { source, target: *target, uid: 0 });
            }
        }
        GraphEdgeIterator::new(all)
    }

    fn len(&self) -> usize {
        self.storage.len()
    }

    fn get_degree(&self, node: GraphNode) -> usize {
        self.storage[node].len()
    }

    fn get_neighbours(&self, node: GraphNode) -> GraphEdgeIterator {
        let mut all: Vec<GraphEdge> = Vec::new();
        for target in self.storage[node].iter() {
            all.push(GraphEdge { source: node, target: *target, uid: 0 });
        }
        GraphEdgeIterator::new(all)
    }

    fn new() -> Self {
        MyGraphType { storage: Vec::new() }
    }
}

#[test]
fn its_possible_to_create_graph_and_use_methods() {
    let mut graph: Graph<usize, MyGraphType> = Graph::new();
    graph.add_node(1);
    graph.add_node(2);
    graph.add_node(3);

    let theoretical_edges = [(1, 2), (1, 3), (2, 1), (2, 3), (3, 1), (3, 2)];
    let mut it = graph.edges();
    let mut i = 0;
    while let Some(edge) = it.next() {
        assert_eq!(theoretical_edges[i], graph.get_edge_values(edge));
        i += 1;
    }
    assert_eq!(i, theoretical_edges.len());
}
