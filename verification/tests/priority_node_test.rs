use grapher::priority_node::{pop_min, PriorityNode};
use std::time::Instant;

#[test]
fn test_priority_ordering() {
    let mut heap: Vec<PriorityNode<usize, char>> = Vec::new();
    heap.push(PriorityNode { priority: 3, node: 'a' });
    heap.push(PriorityNode { priority: 1, node: 'a' });
    heap.push(PriorityNode { priority: 2, node: 'a' });
    assert_eq!(pop_min(&mut heap).unwrap().priority, 1);
    assert_eq!(pop_min(&mut heap).unwrap().priority, 2);
    assert_eq!(pop_min(&mut heap).unwrap().priority, 3);
}

#[test]
fn test_nodes_dont_matter() {
    let mut heap: Vec<PriorityNode<usize, i32>> = Vec::new();
    heap.push(PriorityNode { priority: 1, node: 3 });
    heap.push(PriorityNode { priority: 1, node: 1 });
    heap.push(PriorityNode { priority: 1, node: 2 });

    assert_eq!(pop_min(&mut heap).unwrap().node, 3);
    assert_eq!(pop_min(&mut heap).unwrap().node, 1);
    assert_eq!(pop_min(&mut heap).unwrap().node, 2);
}

#[test]
fn test_ascending_vs_descending_order_push() {
    let mut heap: Vec<PriorityNode<usize, &str>> = Vec::new();

    let now = Instant::now();
    let mut i: usize = 0;
    while i < 10000 {
        heap.push(PriorityNode { priority: i, node: "ff" });
        i += 1;
    }
    println!("Ascending: {}", now.elapsed().as_micros());

    let now1 = Instant::now();
    let mut j: usize = 10000;
    while j > 0 {
        j -= 1;
        heap.push(PriorityNode { priority: j, node: "ff" });
    }
    println!("Descending: {}", now1.elapsed().as_micros());
}
