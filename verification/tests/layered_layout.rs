use markie::mermaid::layout::{assign_ranks, barycenter, layered_graph_order, layered_order, sort_layer};

fn names(v: &[&str]) -> Vec<String> {
    v.iter().map(|s| s.to_string()).collect()
}

fn edge(a: &str, b: &str) -> (String, String, usize) {
    (a.to_string(), b.to_string(), 1)
}

#[test]
fn chain_gets_one_layer_per_node() {
    let layers = layered_order(3, &[(0, 1, 1), (1, 2, 1)]).unwrap();
    assert_eq!(layers, vec![vec![0], vec![1], vec![2]]);
}

#[test]
fn sources_share_the_first_layer() {
    // 0 and 1 have no incoming edge; both feed 2.
    let ranks = assign_ranks(3, &[(0, 2, 1), (1, 2, 1)]).unwrap();
    assert_eq!(ranks, vec![0, 0, 1]);
}

#[test]
fn min_length_stretches_the_rank_distance() {
    let ranks = assign_ranks(2, &[(0, 1, 3)]).unwrap();
    assert_eq!(ranks, vec![0, 3]);
    let layers = layered_order(2, &[(0, 1, 3)]).unwrap();
    assert_eq!(layers, vec![vec![0], vec![], vec![], vec![1]]);
}

#[test]
fn zero_min_length_counts_as_one() {
    let ranks = assign_ranks(2, &[(0, 1, 0)]).unwrap();
    assert_eq!(ranks, vec![0, 1]);
}

#[test]
fn cycle_starts_from_the_first_node() {
    // Every node has an incoming edge: node 0 is placed first and the edge
    // back into it is not followed.
    let ranks = assign_ranks(3, &[(0, 1, 1), (1, 2, 1), (2, 0, 1)]).unwrap();
    assert_eq!(ranks, vec![0, 1, 2]);
}

#[test]
fn a_cycle_apart_from_the_rest_starts_at_rank_zero() {
    // 0 -> 1 is placed first; in the cycle 2 <-> 3 node 2 is placed first.
    let ranks = assign_ranks(4, &[(0, 1, 1), (2, 3, 1), (3, 2, 1)]).unwrap();
    assert_eq!(ranks, vec![0, 1, 0, 1]);
}

#[test]
fn a_node_sits_below_its_deepest_predecessor() {
    // A -> B, B -> C, A -> C: C is one layer below B, not beside it.
    let ranks = assign_ranks(3, &[(0, 1, 1), (1, 2, 1), (0, 2, 1)]).unwrap();
    assert_eq!(ranks, vec![0, 1, 2]);
    let nodes = names(&["A", "B", "C"]);
    let edges = vec![edge("A", "B"), edge("B", "C"), edge("A", "C")];
    assert_eq!(layered_graph_order(&nodes, &edges).unwrap(), vec![vec![0], vec![1], vec![2]]);
}

#[test]
fn longest_path_uses_the_edge_lengths() {
    // 0 -> 2 (length 3) beats 0 -> 1 -> 2 (lengths 1 + 1).
    let ranks = assign_ranks(3, &[(0, 1, 1), (1, 2, 1), (0, 2, 3)]).unwrap();
    assert_eq!(ranks, vec![0, 1, 3]);
}

#[test]
fn oversized_ranks_are_refused() {
    assert!(assign_ranks(2, &[(0, 1, usize::MAX)]).is_none());
    assert!(layered_order(2, &[(0, 1, usize::MAX)]).is_none());
}

#[test]
fn edges_to_unknown_nodes_are_ignored() {
    let ranks = assign_ranks(2, &[(0, 5, 1), (0, 1, 1)]).unwrap();
    assert_eq!(ranks, vec![0, 1]);
}

#[test]
fn barycenter_sums_positions_of_neighbours_in_the_layer() {
    let layer = vec![7, 3, 9];
    assert_eq!(barycenter(&vec![9, 7, 4], &layer), (2, 2));
    assert_eq!(barycenter(&vec![4], &layer), (0, 0));
}

#[test]
fn sort_layer_orders_by_barycenter_then_index() {
    // Layer above: [10, 11]. Node 0's parent is 11 (position 1), node 1's is 10 (position 0),
    // node 2 has no parent there and goes last.
    let mut nb: Vec<Vec<usize>> = vec![Vec::new(); 12];
    nb[0] = vec![11];
    nb[1] = vec![10];
    let sorted = sort_layer(&vec![0, 1, 2], &nb, &vec![10, 11]);
    assert_eq!(sorted, vec![1, 0, 2]);
}

#[test]
fn crossing_edges_are_uncrossed() {
    // a -> d, b -> c: the second layer is reordered to follow its parents.
    let nodes = names(&["a", "b", "c", "d"]);
    let edges = vec![edge("a", "d"), edge("b", "c")];
    let layers = layered_graph_order(&nodes, &edges).unwrap();
    assert_eq!(layers, vec![vec![0, 1], vec![3, 2]]);
}

#[test]
fn equal_barycenters_keep_node_order() {
    let nodes = names(&["a", "b", "c"]);
    let edges = vec![edge("a", "b"), edge("a", "c")];
    let layers = layered_graph_order(&nodes, &edges).unwrap();
    assert_eq!(layers, vec![vec![0], vec![1, 2]]);
}

#[test]
fn edges_naming_unknown_nodes_are_left_out() {
    let nodes = names(&["a", "b"]);
    let edges = vec![edge("a", "zz"), edge("a", "b")];
    let layers = layered_graph_order(&nodes, &edges).unwrap();
    assert_eq!(layers, vec![vec![0], vec![1]]);
}

#[test]
fn every_node_appears_exactly_once() {
    let nodes = names(&["n0", "n1", "n2", "n3", "n4", "n5"]);
    let edges = vec![
        edge("n0", "n2"),
        edge("n1", "n2"),
        edge("n2", "n3"),
        edge("n0", "n4"),
        edge("n4", "n5"),
        edge("n5", "n0"),
    ];
    let layers = layered_graph_order(&nodes, &edges).unwrap();
    let mut seen: Vec<usize> = layers.iter().flatten().copied().collect();
    seen.sort();
    assert_eq!(seen, vec![0, 1, 2, 3, 4, 5]);
}

#[test]
fn no_nodes_no_layers() {
    let layers = layered_graph_order(&[], &[]).unwrap();
    assert!(layers.is_empty());
}
