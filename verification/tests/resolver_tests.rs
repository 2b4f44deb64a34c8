use smolix_build::descriptor::{InputDerivation, StoreDerivation, StoreDerivationOutput};
use smolix_build::planner::plan;
use smolix_build::resolver::Resolver;

fn drv(name: &str, inputs: &[&str]) -> StoreDerivation {
    StoreDerivation {
        args: vec!["-c".to_string(), "build".to_string()],
        builder: "/bin/sh".to_string(),
        env: vec![("PATH".to_string(), "/bin".to_string())],
        input_derivations: inputs
            .iter()
            .map(|p| {
                (
                    p.to_string(),
                    InputDerivation {
                        outputs: vec!["out".to_string()],
                        dynamic_outputs: vec![],
                    },
                )
            })
            .collect(),
        input_sources: vec![],
        name: name.to_string(),
        outputs: vec![(
            "out".to_string(),
            StoreDerivationOutput {
                path: format!("/store/{}", name),
            },
        )],
        system: "x86_64-linux".to_string(),
    }
}

#[test]
fn dedup_same_name_two_paths() {
    let mut r = Resolver::new(drv("root", &["b.json", "c.json"]));
    let (par, p) = r.next_request().unwrap();
    assert_eq!((par, p.as_str()), (0, "b.json"));
    r.supply(drv("b", &["shared1.json"]));
    let (par, p) = r.next_request().unwrap();
    assert_eq!((par, p.as_str()), (1, "shared1.json"));
    r.supply(drv("shared", &[]));
    let (par, p) = r.next_request().unwrap();
    assert_eq!((par, p.as_str()), (0, "c.json"));
    r.supply(drv("c", &["shared2.json"]));
    let (par, p) = r.next_request().unwrap();
    assert_eq!((par, p.as_str()), (3, "shared2.json"));
    r.supply(drv("shared", &[]));
    assert!(r.next_request().is_none());

    // one node for the shared name, reached from two places
    assert_eq!(r.builder.node_count(), 4);
    let edges = r.builder.edge_pairs();
    assert_eq!(edges, vec![(0, 1), (1, 2), (0, 3), (3, 2)]);
    let incoming: Vec<&(usize, usize)> = edges.iter().filter(|e| e.1 == 2).collect();
    assert_eq!(incoming.len(), 2);
}

#[test]
fn mutual_reference_terminates_and_plan_rejects() {
    let mut r = Resolver::new(drv("a", &["b.json"]));
    let (par, p) = r.next_request().unwrap();
    assert_eq!((par, p.as_str()), (0, "b.json"));
    r.supply(drv("b", &["a.json"]));
    let (par, p) = r.next_request().unwrap();
    assert_eq!((par, p.as_str()), (1, "a.json"));
    // the file at a.json holds the descriptor named "a" again: reuse
    r.supply(drv("a", &["b.json"]));
    assert!(r.next_request().is_none());

    assert_eq!(r.builder.node_count(), 2);
    assert_eq!(r.builder.edge_pairs(), vec![(0, 1), (1, 0)]);
    let err = plan(&r.builder.graph).unwrap_err();
    assert!(err.node < 2);
}

#[test]
fn resolver_keeps_descriptor_data() {
    let mut r = Resolver::new(drv("top", &["dep.json"]));
    r.next_request().unwrap();
    r.supply(drv("dep", &[]));
    let top = r.builder.derivation(0);
    assert_eq!(top.name, "top");
    assert_eq!(top.builder, "/bin/sh");
    assert_eq!(top.args, vec!["-c".to_string(), "build".to_string()]);
    assert_eq!(top.outputs[0].1.path, "/store/top");
    let dep = r.builder.derivation(1);
    assert_eq!(dep.name, "dep");
    assert!(dep.input_derivations.is_empty());
}
