use grapher::directed::Directed;
use grapher::graph::{Graph, Node};

#[test]
fn graph_test_debug_graph() {
    let g = Graph::from([(1, 2), (2, 3), (3, 0), (1, 0)]);
    assert_eq!("1[2,0]2[3]3[0]0[]", &g.print(false));
}

#[test]
fn add_edge_allow_duplicates() {
    let g = Graph::from([(0, 1), (0, 1)]);
    assert_eq!("0[1,1]1[]", &g.print(false));
}

#[test]
fn add_edge_circles() {
    let g = Graph::from([(0, 0)]);
    assert_eq!("0[0]", &g.print(false));
}

#[test]
fn iterate_nodes() {
    let g = Graph::from([(0, 1), (4, 5)]);
    let node_list = [0, 1, 4, 5];
    let mut it = g.nodes();
    let mut index = 0;
    while let Some((node, _value)) = it.next() {
        assert_eq!(*g.index(node), node_list[index]);
        index += 1;
    }
    assert_eq!(index, node_list.len());
}

#[test]
fn iterate_edges() {
    let input_array = [(0, 1), (2, 3), (2, 1)];
    let g = Graph::from(input_array);
    let mut edges: Vec<grapher::graph::Edge> = Vec::new();
    let mut it = g.edges();
    while let Some(edge) = it.next() {
        edges.push(edge);
    }
    for (i, edge) in input_array.iter().enumerate() {
        assert_eq!(g.get_edge_values(edges[i]), *edge);
    }
}

#[test]
fn iterate_edges_empty_graph() {
    let g: Graph<usize, Directed> = Graph::new_directed();
    let mut it = g.edges();
    assert!(it.next().is_none());
}

#[test]
fn graph_does_not_has_ghost_nodes() {
    let g = Graph::from([(1, 2)]);
    let mut it = g.nodes();
    while let Some((node, _value)) = it.next() {
        assert_ne!(*g.index(node), 0);
    }
}

#[test]
fn graph_has_correct_size() {
    let g = Graph::from([(1, 2)]);
    assert_eq!(g.len(), 2);
}

#[test]
fn get_neighbours() {
    let g = Graph::from([(1u32, 2), (1, 3), (1, 4)]);
    let node = g.find_node_with_value(&1).expect("Node not found");
    let mut iter = g.get_neighbours(node);
    assert_eq!(iter.next().map(|e| e.target), g.find_node_with_value(&2));
    assert_eq!(iter.next().map(|e| e.target), g.find_node_with_value(&3));
    assert_eq!(iter.next().map(|e| e.target), g.find_node_with_value(&4));
}

#[test]
fn create_directed_graph_from_vector() {
    let v = vec![(1, 2), (3, 4), (1, 5), (2, 4)];
    let edges = vec![(1, 2), (1, 5), (2, 4), (3, 4)];
    let g = Graph::from_vec_directed(v);
    let mut found: Vec<(i32, i32)> = Vec::new();
    let mut it = g.edges();
    while let Some(edge) = it.next() {
        found.push(g.get_edge_values(edge));
    }
    assert_eq!(found, edges);
}

#[test]
fn find_node_with_missing_value() {
    let g = Graph::from([(1, 2)]);
    assert_eq!(g.find_node_with_value(&7), None::<Node>);
}
