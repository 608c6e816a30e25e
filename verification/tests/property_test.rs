use grapher::directed::Directed;
use grapher::graph::Graph;
use grapher::path_finder::PathFinder;
use grapher::undirected::Undirected;
use grapher::weighted_graph::WeightedGraph;

#[test]
fn index_mut_updates_one_value() {
    let mut g: Graph<i32, Directed> = Graph::new_directed();
    let a = g.add_node(1);
    let b = g.add_node(2);
    *g.index_mut(a) = 10;
    assert_eq!(*g.index(a), 10);
    assert_eq!(*g.index(b), 2);
}

#[test]
fn weighted_shortest_path_follows_first_relaxation() {
    // The search ends as soon as a relaxation reaches the target, so on a
    // weighted graph it reports the first route it discovers, even when a
    // cheaper one is found later.
    let g: WeightedGraph<i32, usize, Directed> =
        WeightedGraph::from_vec_directed(vec![(0, 1, 1), (0, 2, 10), (1, 2, 1)]);
    let s = g.find_node_with_value(&0).unwrap();
    let t = g.find_node_with_value(&2).unwrap();
    let path = PathFinder::find_shortest_path(&g, s, t).unwrap();
    assert_eq!(path, vec![s, t]);
}

#[test]
fn node_count_stays_in_lockstep() {
    let mut g: Graph<i32, Directed> = Graph::new_directed();
    assert_eq!(g.len(), 0);
    let a = g.add_node(10);
    let b = g.add_node(20);
    assert_eq!(g.len(), 2);
    g.add_edge(a, b);
    g.add_edge(b, a);
    assert_eq!(g.len(), 2);
    let mut it = g.nodes();
    let mut count = 0;
    while let Some(_pair) = it.next() {
        count += 1;
    }
    assert_eq!(count, 2);
}

#[test]
fn undirected_edge_is_symmetric() {
    let mut g: WeightedGraph<i32, usize, Undirected> = WeightedGraph::new_undirected();
    let a = g.add_node(1);
    let b = g.add_node(2);
    g.add_edge(a, b, 7);
    assert_eq!(g.get_degree(a), 1);
    assert_eq!(g.get_degree(b), 1);
    let mut from_a = g.get_neighbours(a);
    let ea = from_a.next().unwrap();
    assert_eq!(ea.0.target, b);
    assert_eq!(ea.1, &7);
    let mut from_b = g.get_neighbours(b);
    let eb = from_b.next().unwrap();
    assert_eq!(eb.0.target, a);
    assert_eq!(eb.0.uid, ea.0.uid);
}

#[test]
fn undirected_self_loop_doubles_degree() {
    let mut g: Graph<i32, Undirected> = Graph::new_undirected();
    let a = g.add_node(5);
    g.add_edge(a, a);
    assert_eq!(g.get_degree(a), 2);
    assert_eq!("5[5,5]", &g.print(false));
}

#[test]
fn directed_edge_is_asymmetric() {
    let mut g: Graph<i32, Directed> = Graph::new_directed();
    let a = g.add_node(1);
    let b = g.add_node(2);
    g.add_edge(a, b);
    assert_eq!(g.get_degree(a), 1);
    assert_eq!(g.get_degree(b), 0);
    let mut from_b = g.get_neighbours(b);
    assert!(from_b.next().is_none());
}

#[test]
fn iteration_is_idempotent() {
    let g = Graph::from([(1, 2), (2, 3), (1, 3)]);
    let mut first_nodes: Vec<i32> = Vec::new();
    let mut it = g.nodes();
    while let Some((_n, v)) = it.next() {
        first_nodes.push(*v);
    }
    let mut second_nodes: Vec<i32> = Vec::new();
    let mut it2 = g.nodes();
    while let Some((_n, v)) = it2.next() {
        second_nodes.push(*v);
    }
    assert_eq!(first_nodes, second_nodes);

    let mut first_edges: Vec<(i32, i32)> = Vec::new();
    let mut eit = g.edges();
    while let Some(e) = eit.next() {
        first_edges.push(g.get_edge_values(e));
    }
    let mut second_edges: Vec<(i32, i32)> = Vec::new();
    let mut eit2 = g.edges();
    while let Some(e) = eit2.next() {
        second_edges.push(g.get_edge_values(e));
    }
    assert_eq!(first_edges, second_edges);
}

#[test]
fn dedup_construction_shares_nodes() {
    let g = Graph::from([(1, 2), (1, 3), (1, 4)]);
    assert_eq!(g.len(), 4);
    assert_eq!("1[2,3,4]2[]3[]4[]", &g.print(false));
}

#[test]
fn undirected_from_vec_mirrors_edges() {
    let g: Graph<i32, Undirected> = Graph::from_vec_undirected(vec![(0, 1)]);
    assert_eq!("0[1]1[0]", &g.print(false));
}

#[test]
fn print_renders_negative_values() {
    let g = Graph::from([(-1, -2)]);
    assert_eq!("-1[-2]-2[]", &g.print(false));
}

#[test]
fn print_renders_multi_digit_values() {
    let mut g: Graph<usize, Directed> = Graph::new_directed();
    let a = g.add_node(1234567890);
    let b = g.add_node(100);
    g.add_edge(a, b);
    assert_eq!("1234567890[100]100[]", &g.print(false));
    assert_eq!("1234567890[100]\n100[]\n", &g.print(true));
}

#[test]
fn weighted_print_renders_usize_weights() {
    let mut g: WeightedGraph<i32, usize, Directed> = WeightedGraph::new_directed();
    let a = g.add_node(7);
    let b = g.add_node(8);
    g.add_edge(a, b, 42);
    assert_eq!("0{7}[1(42)]1{8}[]", &g.print(false));
}

#[test]
fn weighted_get_edge_values_reads_endpoints() {
    let mut g: WeightedGraph<i32, usize, Directed> = WeightedGraph::new_directed();
    let a = g.add_node(7);
    let b = g.add_node(8);
    g.add_edge(a, b, 1);
    let mut it = g.edges();
    let (edge, _w) = it.next().unwrap();
    assert_eq!(g.get_edge_values(edge), (7, 8));
    assert_eq!(edge.source, a);
    assert_eq!(edge.target, b);
}
