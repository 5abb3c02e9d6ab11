use cce_designer::layout::{arrange, LayoutNode};
use std::collections::HashMap;

fn node(name: &str, input: Option<&str>, pos: (i64, i64), pinned: bool) -> LayoutNode {
    LayoutNode {
        name: name.to_string(),
        input: input.map(|s| s.to_string()),
        position: pos,
        pinned,
    }
}

fn cell_of(nodes: &[LayoutNode], moved: &HashMap<usize, (i64, i64)>, i: usize) -> (i64, i64) {
    moved.get(&i).copied().unwrap_or(nodes[i].position)
}

/// Auto-layout: rows are how far downstream a node is, columns keep it
/// under what it reads from.
#[test]
fn test_auto_layout_lays_a_chain_out_vertically() {
    // A chain, scattered, comes back as one vertical line.
    let nodes = vec![
        node("c", Some("b"), (7, 0), false),
        node("a", None, (2, 5), false),
        node("b", Some("a"), (0, 9), false),
    ];
    let moved: HashMap<usize, (i64, i64)> = arrange(&nodes).into_iter().collect();
    let at = |i: usize| cell_of(&nodes, &moved, i);
    assert_eq!(at(1).1, 0, "the root is not on the top row");
    assert_eq!(at(2).1, 1, "its child is not one row below it");
    assert_eq!(at(0).1, 2, "the grandchild is not two rows below");
    assert_eq!(at(1).0, at(2).0, "a chain should be one column");
    assert_eq!(at(2).0, at(0).0, "a chain should be one column");

    // A root's existing column is its wish, so two independent chains keep
    // the left-to-right order the user gave them.
    let nodes = vec![
        node("right", None, (5, 0), false),
        node("left", None, (1, 0), false),
        node("right_child", Some("right"), (0, 0), false),
        node("left_child", Some("left"), (0, 0), false),
    ];
    let moved: HashMap<usize, (i64, i64)> = arrange(&nodes).into_iter().collect();
    let at = |i: usize| cell_of(&nodes, &moved, i);
    assert!(at(1).0 < at(0).0, "left should stay left of right");
    assert_eq!(at(1).0, at(3).0, "left's child should sit under it");
    assert_eq!(at(0).0, at(2).0, "right's child should sit under it");
    assert_eq!(at(2).1, 1);
    assert_eq!(at(3).1, 1);
}

/// The cases that would otherwise hang or overwrite: cycles, self
/// reference, dangling names, and pinned cells.
#[test]
fn test_auto_layout_survives_cycles_and_pinned_nodes() {
    let cyclic = vec![
        node("a", Some("b"), (0, 0), false),
        node("b", Some("a"), (1, 0), false),
        node("self", Some("self"), (2, 0), false),
    ];
    let moved = arrange(&cyclic);
    assert!(moved.len() <= 3);
    for (_, (_, r)) in &moved {
        assert!(*r >= 0);
    }

    // A dangling input name is simply no edge: the node is a root.
    let dangling = vec![node("a", Some("nothing_called_this"), (3, 4), false)];
    let moved: Vec<_> = arrange(&dangling);
    assert_eq!(moved, vec![(0, (3, 0))], "a dangling input should make a root");

    // Pinned nodes never move, and nothing is placed on top of them.
    let pinned = vec![
        node("meta", None, (0, 0), true),
        node("a", None, (0, 5), false),
        node("b", Some("a"), (0, 6), false),
    ];
    let moved: HashMap<usize, (i64, i64)> = arrange(&pinned).into_iter().collect();
    assert!(!moved.contains_key(&0), "a pinned node moved");
    let a = cell_of(&pinned, &moved, 1);
    assert_ne!(a, (0, 0), "a node was placed on top of the pinned one");
    assert_eq!(a.1, 0, "the root still belongs on the top row");
    let b = cell_of(&pinned, &moved, 2);
    assert_eq!(b.0, a.0, "the child should follow its parent's column");
    assert_eq!(b.1, 1);
}

#[test]
fn a_cycle_is_cut_after_as_many_steps_as_nodes() {
    let cyclic = vec![
        node("a", Some("b"), (0, 0), false),
        node("b", Some("a"), (1, 0), false),
        node("self", Some("self"), (2, 0), false),
    ];
    // Both cycle members sit at depth 3; the second slides right of the
    // first; the self-reader is a root already in place.
    assert_eq!(arrange(&cyclic), vec![(0, (1, 3)), (1, (2, 3))]);
}

#[test]
fn nodes_already_in_place_are_not_reported() {
    let nodes = vec![node("a", None, (4, 0), false), node("b", Some("a"), (4, 1), false)];
    assert!(arrange(&nodes).is_empty());
    assert!(arrange(&Vec::new()).is_empty());
}

#[test]
fn a_crowded_row_pushes_later_nodes_right() {
    // Three roots wishing for column 0, one of them pinned there.
    let nodes = vec![
        node("p", None, (0, 0), true),
        node("x", None, (0, 3), false),
        node("y", None, (0, 7), false),
    ];
    assert_eq!(arrange(&nodes), vec![(1, (1, 0)), (2, (2, 0))]);
}

#[test]
fn the_first_of_two_same_named_nodes_is_the_input() {
    let nodes = vec![
        node("dup", None, (3, 0), false),
        node("dup", None, (8, 0), false),
        node("reader", Some("dup"), (0, 0), false),
    ];
    let moved: HashMap<usize, (i64, i64)> = arrange(&nodes).into_iter().collect();
    assert_eq!(cell_of(&nodes, &moved, 2), (3, 1));
}
