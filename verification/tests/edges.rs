use smallgraph::{Cut, NodeHandle, SmallGraph};

fn three() -> (SmallGraph<char>, NodeHandle, NodeHandle, NodeHandle) {
    let mut g = SmallGraph::<char>::new();
    let a = g.insert('a');
    let b = g.insert('b');
    let c = g.insert('c');
    (g, a, b, c)
}

#[test]
fn scenario_remove_middle_node_then_reuse_its_slot() {
    let (mut g, a, b, c) = three();
    assert_eq!((0, 0), a);
    assert_eq!((1, 0), b);
    assert_eq!((2, 0), c);
    g.connect_to(a, b);
    g.connect_to(b, c);
    assert_eq!(Some('b'), g.remove(b));
    assert_eq!(2, g.node_count());
    assert!(g.neighbors(a).is_empty());
    assert_eq!(0, g.neighbors(a).len());
    assert_eq!(false, g.is_connected_to(a, b));
    assert_eq!(false, g.is_connected_to(b, c));
    let d = g.insert('d');
    assert_eq!((1, 1), d);
}

#[test]
fn connect_to_is_one_way() {
    let (mut g, a, b, _c) = three();
    g.connect_to(a, b);
    assert_eq!(1, g.connection_count());
    assert_eq!(Some((0, 1)), g.connection(0));
    assert_eq!(None, g.connection(1));
    assert!(g.is_connected_to(a, b));
    assert!(!g.is_connected_to(b, a));
}

#[test]
fn connect_adds_two_edges() {
    let (mut g, a, b, c) = three();
    g.connect_to(a, c);
    g.connect(a, b);
    assert_eq!(3, g.connection_count());
    assert_eq!(Some((0, 1)), g.connection(1));
    assert_eq!(Some((1, 0)), g.connection(2));
    assert!(g.is_connected_to(a, b));
    assert!(g.is_connected_to(b, a));
    assert!(!g.is_connected_to(b, c));
}

#[test]
fn parallel_edges_coexist() {
    let (mut g, a, b, _c) = three();
    g.connect_to(a, b);
    g.connect_to(a, b);
    assert_eq!(2, g.connection_count());
    assert_eq!(vec![(1, 0), (1, 0)], g.neighbors(a).to_vec());
    g.disconnect_from(a, b);
    assert_eq!(0, g.connection_count());
}

#[test]
fn neighbors_lists_heads_in_edge_order() {
    let (mut g, a, b, c) = three();
    g.connect_to(a, c);
    g.connect_to(b, a);
    g.connect_to(a, b);
    g.connect_to(a, a);
    let out = g.neighbors(a);
    assert_eq!(3, out.len());
    assert!(!out.is_empty());
    assert_eq!(Some(c), out.get(0));
    assert_eq!(Some(b), out.get(1));
    assert_eq!(Some(a), out.get(2));
    assert_eq!(None, out.get(3));
    assert_eq!(vec![c, b, a], out.to_vec());
    assert_eq!(vec![a], g.neighbors(b).to_vec());
    assert!(g.neighbors(c).to_vec().is_empty());
}

#[test]
fn nodes_with_neighbor_lists_tails_in_edge_order() {
    let (mut g, a, b, c) = three();
    g.connect_to(a, c);
    g.connect_to(b, c);
    g.connect_to(c, a);
    g.connect_to(a, c);
    assert_eq!(vec![a, b, a], g.nodes_with_neighbor(c).to_vec());
    assert_eq!(vec![c], g.nodes_with_neighbor(a).to_vec());
    assert!(g.nodes_with_neighbor(b).is_empty());
}

#[test]
fn neighbor_handles_carry_the_current_generation() {
    let mut g = SmallGraph::<u8>::new();
    let a = g.insert(1);
    let old_b = g.insert(2);
    g.remove(old_b);
    let new_b = g.insert(3);
    assert_eq!((1, 1), new_b);
    g.connect_to(a, old_b);
    assert_eq!(vec![new_b], g.neighbors(a).to_vec());
    assert_eq!(Some(&3), g.get(g.neighbors(a).get(0).unwrap()));
    g.connect_to(old_b, a);
    assert_eq!(vec![new_b], g.nodes_with_neighbor(a).to_vec());
}

#[test]
fn edges_to_slots_never_allocated_give_no_neighbor() {
    let mut g = SmallGraph::<u8>::new();
    let a = g.insert(1);
    let far: NodeHandle = (9, 0);
    g.connect_to(a, far);
    g.connect_to(far, a);
    assert_eq!(2, g.connection_count());
    assert!(g.is_connected_to(a, far));
    assert!(g.neighbors(a).is_empty());
    assert!(g.nodes_with_neighbor(a).is_empty());
    assert!(g.neighbors(far).to_vec() == vec![a]);
}

#[test]
fn disconnect_all_strips_both_directions() {
    let (mut g, a, b, c) = three();
    g.connect(a, b);
    g.connect_to(b, c);
    g.connect_to(c, a);
    g.connect_to(c, c);
    g.disconnect_all(a);
    assert_eq!(2, g.connection_count());
    assert_eq!(Some((1, 2)), g.connection(0));
    assert_eq!(Some((2, 2)), g.connection(1));
    assert_eq!(3, g.node_count());
}

#[test]
fn disconnect_removes_the_pair_in_both_directions() {
    let (mut g, a, b, c) = three();
    g.connect(a, b);
    g.connect_to(a, c);
    g.connect_to(b, a);
    g.connect_to(c, b);
    g.disconnect(b, a);
    assert_eq!(2, g.connection_count());
    assert_eq!(Some((0, 2)), g.connection(0));
    assert_eq!(Some((2, 1)), g.connection(1));
    assert!(!g.is_connected_to(a, b));
    assert!(!g.is_connected_to(b, a));
}

#[test]
fn disconnect_from_removes_one_direction_only() {
    let (mut g, a, b, c) = three();
    g.connect(a, b);
    g.connect_to(a, c);
    g.disconnect_from(a, b);
    assert_eq!(2, g.connection_count());
    assert_eq!(Some((1, 0)), g.connection(0));
    assert_eq!(Some((0, 2)), g.connection(1));
    assert!(!g.is_connected_to(a, b));
    assert!(g.is_connected_to(b, a));
}

#[test]
fn disconnect_goes_by_slot_not_by_generation() {
    let (mut g, a, b, _c) = three();
    g.connect(a, b);
    g.disconnect_from((a.0, 77), (b.0, 99));
    assert_eq!(1, g.connection_count());
    g.disconnect((b.0, 5), (a.0, 6));
    assert_eq!(0, g.connection_count());
}

#[test]
fn disconnect_of_unconnected_nodes_changes_nothing() {
    let (mut g, a, b, c) = three();
    g.connect_to(a, b);
    g.disconnect(a, c);
    g.disconnect_from(b, a);
    g.disconnect_all(c);
    assert_eq!(1, g.connection_count());
    assert_eq!(Some((0, 1)), g.connection(0));
}

#[test]
fn remove_strips_edges_of_the_node() {
    let (mut g, a, b, c) = three();
    g.connect(a, b);
    g.connect(b, c);
    g.connect(a, c);
    g.remove(b);
    assert_eq!(2, g.connection_count());
    assert_eq!(vec![c], g.neighbors(a).to_vec());
    assert_eq!(vec![a], g.neighbors(c).to_vec());
    let d = g.insert('d');
    assert_eq!(b.0, d.0);
    assert!(g.neighbors(d).is_empty());
    assert!(g.nodes_with_neighbor(d).is_empty());
}

#[test]
fn failed_remove_leaves_edges_alone() {
    let (mut g, a, b, _c) = three();
    g.connect(a, b);
    assert_eq!(None, g.remove((a.0, 3)));
    assert_eq!(2, g.connection_count());
    assert!(g.is_connected_to(a, b));
}

#[test]
fn edge_list_grows_past_its_inline_room() {
    let mut g = SmallGraph::<usize>::new();
    let hub = g.insert(0);
    let spokes: Vec<NodeHandle> = (1..=300usize).map(|k| g.insert(k)).collect();
    for s in spokes.iter() {
        g.connect(hub, *s);
    }
    assert_eq!(600, g.connection_count());
    assert_eq!(Some((0, 300)), g.connection(598));
    assert_eq!(Some((300, 0)), g.connection(599));
    let out = g.neighbors(hub);
    assert_eq!(300, out.len());
    assert_eq!(spokes, out.to_vec());
    assert_eq!(spokes, g.nodes_with_neighbor(hub).to_vec());
    g.disconnect(hub, spokes[0]);
    assert_eq!(598, g.connection_count());
    assert_eq!(Some((0, 2)), g.connection(0));
    g.remove(hub);
    assert_eq!(0, g.connection_count());
    assert_eq!(300, g.node_count());
}

#[test]
fn cut_node_spares_edges_elsewhere() {
    let cut = Cut::Node(3);
    assert!(!cut.spares((3, 1)));
    assert!(!cut.spares((1, 3)));
    assert!(!cut.spares((3, 3)));
    assert!(cut.spares((1, 2)));
}

#[test]
fn cut_pair_spares_all_but_the_two_directions() {
    let cut = Cut::Pair(1, 2);
    assert!(!cut.spares((1, 2)));
    assert!(!cut.spares((2, 1)));
    assert!(cut.spares((1, 1)));
    assert!(cut.spares((2, 2)));
    assert!(cut.spares((1, 3)));
}

#[test]
fn cut_arc_spares_the_reverse_edge() {
    let cut = Cut::Arc(1, 2);
    assert!(!cut.spares((1, 2)));
    assert!(cut.spares((2, 1)));
    assert!(cut.spares((1, 1)));
}
