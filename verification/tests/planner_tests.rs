use smolix_build::descriptor::{InputDerivation, StoreDerivation, StoreDerivationOutput};
use smolix_build::graph::DerivationBuilder;
use smolix_build::planner::plan;

fn leaf(name: &str) -> StoreDerivation {
    StoreDerivation {
        args: vec![],
        builder: "/bin/sh".to_string(),
        env: vec![],
        input_derivations: vec![(
            "unused.json".to_string(),
            InputDerivation {
                outputs: vec!["out".to_string()],
                dynamic_outputs: vec![("k".to_string(), "v".to_string())],
            },
        )],
        input_sources: vec!["/src/file".to_string()],
        name: name.to_string(),
        outputs: vec![(
            "out".to_string(),
            StoreDerivationOutput {
                path: format!("/store/{}", name),
            },
        )],
        system: "x86_64-linux".to_string(),
    }
}

#[test]
fn plan_places_dependencies_first() {
    // diamond: top depends on left and right, both depend on base
    let mut b = DerivationBuilder::default();
    let top = b.add_derivation(leaf("top"));
    let left = b.add_derivation(leaf("left"));
    let right = b.add_derivation(leaf("right"));
    let base = b.add_derivation(leaf("base"));
    b.link(top, left);
    b.link(top, right);
    b.link(left, base);
    b.link(right, base);

    let order = plan(&b.graph).unwrap();
    assert_eq!(order.len(), 4);
    for &(u, v) in b.edge_pairs().iter() {
        let pu = order.iter().position(|&x| x == u).unwrap();
        let pv = order.iter().position(|&x| x == v).unwrap();
        assert!(pv < pu, "dependency {} must come before {}", v, u);
    }
}

#[test]
fn plan_of_empty_graph_is_empty() {
    let b = DerivationBuilder::default();
    let order = plan(&b.graph).unwrap();
    assert!(order.is_empty());
}

#[test]
fn plan_reports_cycle_member() {
    let mut b = DerivationBuilder::default();
    let x = b.add_derivation(leaf("x"));
    let y = b.add_derivation(leaf("y"));
    let z = b.add_derivation(leaf("z"));
    b.link(x, y);
    b.link(y, x);
    b.link(z, x);
    let err = plan(&b.graph).unwrap_err();
    // z only depends on the cycle; the reported node is inside it
    assert!(err.node == x || err.node == y || err.node == z);
}

#[test]
fn add_derivation_reuses_existing_name() {
    let mut b = DerivationBuilder::default();
    let first = b.add_derivation(leaf("same"));
    let second = b.add_derivation(leaf("same"));
    assert_eq!(first, second);
    assert_eq!(b.node_count(), 1);
    assert!(b.edge_pairs().is_empty());
}
