use heyting::kg::EdgeIndex;

#[test]
fn hops_read_back_their_edges_in_order() {
    let mut g: EdgeIndex<f32> = EdgeIndex::new(4);
    g.add_edge(0, 0, 1, 0.9, true);
    g.add_edge(0, 0, 2, 0.5, true);
    g.add_edge(0, 1, 3, 0.7, true);
    g.add_edge(0, 0, 1, 0.3, true); // parallel edge is kept
    assert_eq!(g.num_entities(), 4);
    assert_eq!(g.num_edges(), 4);
    assert_eq!(g.tails(0, 0), vec![1, 2, 1]);
    assert_eq!(g.tails(0, 1), vec![3]);
    assert_eq!(
        g.hop(0, 0),
        Some(&vec![(1, 0.9, true), (2, 0.5, true), (1, 0.3, true)])
    );
    assert_eq!(g.hop(1, 0), None);
    assert!(g.tails(3, 0).is_empty());
}

#[test]
fn off_axis_edges_are_ignored() {
    let mut g: EdgeIndex<u8> = EdgeIndex::new(2);
    g.add_edge(0, 0, 1, 5, true);
    g.add_edge(0, 0, 9, 1, true); // tail out of range
    g.add_edge(2, 0, 1, 1, true); // head out of range
    assert_eq!(g.num_edges(), 1);
    assert_eq!(g.tails(0, 0), vec![1]);
    assert_eq!(g.hop(2, 0), None);
}

#[test]
fn zero_weight_edges_are_stored_but_not_tails() {
    let mut g: EdgeIndex<f32> = EdgeIndex::new(2);
    let w: f32 = 0.0;
    g.add_edge(0, 0, 1, w, w > 0.0);
    assert_eq!(g.num_edges(), 1);
    assert_eq!(g.hop(0, 0), Some(&vec![(1, 0.0, false)]));
    assert!(g.tails(0, 0).is_empty());
}

#[test]
fn tails_list_only_the_positive_edges_in_order() {
    let mut g: EdgeIndex<u8> = EdgeIndex::new(4);
    g.add_edge(0, 0, 1, 0, false);
    g.add_edge(0, 0, 2, 3, true);
    g.add_edge(0, 0, 3, 0, false);
    g.add_edge(0, 0, 1, 7, true);
    assert_eq!(g.tails(0, 0), vec![2, 1]);
    assert_eq!(g.hop(0, 0).map(|h| h.len()), Some(4));
}
