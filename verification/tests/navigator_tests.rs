use smolix_build::Direction;
use smolix_build::descriptor::{InputDerivation, StoreDerivation, StoreDerivationOutput};
use smolix_build::graph::DerivationBuilder;
use smolix_build::navigator::Tree;
use smolix_build::planner::plan;
use smolix_build::resolver::Resolver;

fn drv(name: &str, inputs: &[&str]) -> StoreDerivation {
    StoreDerivation {
        args: vec![],
        builder: "/bin/sh".to_string(),
        env: vec![],
        input_derivations: inputs
            .iter()
            .map(|p| {
                (
                    p.to_string(),
                    InputDerivation {
                        outputs: vec!["out".to_string()],
                        dynamic_outputs: vec![],
                    },
                )
            })
            .collect(),
        input_sources: vec![],
        name: name.to_string(),
        outputs: vec![(
            "out".to_string(),
            StoreDerivationOutput {
                path: format!("/store/{}", name),
            },
        )],
        system: "x86_64-linux".to_string(),
    }
}

fn chain(names: &[&str]) -> DerivationBuilder {
    // names[0] depends on names[1], which depends on names[2], ...
    let next: &[&str] = &["next.json"];
    let none: &[&str] = &[];
    let mut r = Resolver::new(drv(names[0], if names.len() > 1 { next } else { none }));
    let mut i = 1;
    while r.next_request().is_some() {
        r.supply(drv(names[i], if i + 1 < names.len() { next } else { none }));
        i += 1;
    }
    r.builder
}

fn scroll_in_bounds(t: &Tree) -> bool {
    let max = t.visible.len().saturating_sub(t.height);
    t.scroll <= max
}

fn selection_visible(t: &Tree) -> bool {
    match t.selected {
        Some(s) => t.visible.iter().any(|l| l.node == s),
        None => true,
    }
}

#[test]
fn end_to_end_three_descriptors() {
    let mut r = Resolver::new(drv("a", &["b.json"]));
    let (par, p) = r.next_request().unwrap();
    assert_eq!((par, p.as_str()), (0, "b.json"));
    r.supply(drv("b", &["c.json"]));
    let (par, p) = r.next_request().unwrap();
    assert_eq!((par, p.as_str()), (1, "c.json"));
    r.supply(drv("c", &[]));
    assert!(r.next_request().is_none());

    assert_eq!(r.builder.node_count(), 3);
    assert_eq!(r.builder.edge_pairs(), vec![(0, 1), (1, 2)]);

    let order = plan(&r.builder.graph).unwrap();
    assert_eq!(order, vec![2, 1, 0]);

    let mut tree = Tree::new(&r.builder.graph, r.root);
    let lines = tree.render_lines();
    assert_eq!(lines.len(), 3);
    assert_eq!(lines[0].0, " \u{25bc}  a");
    assert_eq!(lines[1].0, "   \u{25bc}  b");
    assert_eq!(lines[2].0, "        c");

    tree.move_selection(Direction::Down);
    assert_eq!(tree.selected, Some(0));
    tree.move_selection(Direction::Down);
    assert_eq!(tree.selected, Some(1));
}

#[test]
fn collapse_hides_subtree() {
    // root -> child -> grandchild
    let b = chain(&["root", "child", "grand"]);
    let mut tree = Tree::new(&b.graph, 0);
    tree.move_selection(Direction::Down);
    tree.move_selection(Direction::Down);
    assert_eq!(tree.selected, Some(1));
    tree.toggle_selected();
    let lines = tree.render_lines();
    // the child stays, its subtree is gone
    assert_eq!(lines.len(), 2);
    assert_eq!(lines[0].0, " \u{25bc}  root");
    assert_eq!(lines[1].0, "   \u{25b6}  child");
    assert!(tree.visible.iter().all(|l| l.node != 2));
    assert!(tree.visible.iter().any(|l| l.node == 1));
    // expanding again brings the subtree back
    tree.toggle_selected();
    let lines = tree.render_lines();
    assert_eq!(lines.len(), 3);
}

#[test]
fn selection_stays_visible() {
    let b = chain(&["a", "b", "c", "d"]);
    let mut tree = Tree::new(&b.graph, 0);
    assert!(selection_visible(&tree));
    let moves = [
        Direction::Down,
        Direction::Down,
        Direction::Up,
        Direction::Down,
        Direction::Down,
        Direction::Down,
        Direction::Down,
        Direction::Up,
        Direction::Up,
        Direction::Up,
        Direction::Up,
        Direction::Up,
    ];
    for m in moves {
        tree.move_selection(m);
        assert!(tree.selected.is_some());
        assert!(selection_visible(&tree));
    }
    // clamped at the top after all those ups
    assert_eq!(tree.selected, Some(0));
}

#[test]
fn scroll_stays_in_bounds() {
    let b = chain(&["a", "b", "c", "d", "e"]);
    let mut tree = Tree::new(&b.graph, 0);
    tree.set_height(2);
    assert!(scroll_in_bounds(&tree));
    for _ in 0..10 {
        tree.scroll_down();
        assert!(scroll_in_bounds(&tree));
    }
    assert_eq!(tree.scroll, 3);
    for _ in 0..6 {
        tree.move_selection(Direction::Down);
        assert!(scroll_in_bounds(&tree));
    }
    tree.toggle_selected();
    assert!(scroll_in_bounds(&tree));
    tree.set_height(10);
    assert!(scroll_in_bounds(&tree));
    assert_eq!(tree.scroll, 0);
    tree.set_height(0);
    assert!(scroll_in_bounds(&tree));
    for _ in 0..3 {
        tree.scroll_up();
        assert!(scroll_in_bounds(&tree));
    }
}

#[test]
fn selection_scrolls_window() {
    let b = chain(&["n1", "n2", "n3", "n4", "n5", "n6"]);
    let mut tree = Tree::new(&b.graph, 0);
    tree.set_height(3);
    let expected_scroll = [0, 0, 1, 2, 3, 3];
    for want in expected_scroll {
        tree.move_selection(Direction::Down);
        assert_eq!(tree.scroll, want);
    }
}

#[test]
fn render_marks_selected_line() {
    let b = chain(&["a", "b"]);
    let mut tree = Tree::new(&b.graph, 0);
    tree.move_selection(Direction::Down);
    let lines = tree.render_lines();
    assert_eq!(lines.len(), 2);
    assert_eq!(lines[0], (" \u{25bc}  a".to_string(), true));
    assert_eq!(lines[1], ("      b".to_string(), false));
}

#[test]
fn children_listed_most_recent_first() {
    let mut b = DerivationBuilder::default();
    let root = b.add_derivation(drv("root", &[]));
    let x = b.add_derivation(drv("x", &[]));
    let y = b.add_derivation(drv("y", &[]));
    b.link(root, x);
    b.link(root, y);
    let mut tree = Tree::new(&b.graph, 0);
    let lines = tree.render_lines();
    assert_eq!(lines.len(), 3);
    // the most recently linked child comes first
    assert_eq!(lines[1].0, "      y");
    assert_eq!(lines[2].0, "      x");
    assert_eq!(tree.visible[1].node, y);
    assert_eq!(tree.visible[2].node, x);
}

#[test]
fn empty_graph_has_no_selection_and_no_lines() {
    let b = DerivationBuilder::default();
    let mut tree = Tree::new(&b.graph, 0);
    tree.move_selection(Direction::Down);
    assert_eq!(tree.selected, None);
    let lines = tree.render_lines();
    assert!(lines.is_empty());
    tree.scroll_down();
    assert_eq!(tree.scroll, 0);
    tree.set_height(0);
    assert_eq!(tree.scroll, 0);
}
