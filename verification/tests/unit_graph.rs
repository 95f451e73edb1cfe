use xonaix_library_tools::graph::{CycleReport, DependencyGraph, GraphNode};
use xonaix_library_tools::unit::{
    build_graph, graph_verify, validate, Compatibility, DeclarationLoad, RegistryEntry,
    UnitJson, UnitRegistry,
};

fn unit(id: &str, deps: &[&str]) -> UnitJson {
    UnitJson {
        unit_id: id.to_string(),
        unit_type: "standard".to_string(),
        version: "1.0.0".to_string(),
        status: "active".to_string(),
        description: "a unit".to_string(),
        owner: "owner".to_string(),
        dependencies: deps.iter().map(|d| d.to_string()).collect(),
        compatibility: Compatibility {
            breaking_changes: "none".to_string(),
            backward_compatible: true,
        },
    }
}

fn entry(path: &str) -> RegistryEntry {
    RegistryEntry {
        path: path.to_string(),
        domain: "standards".to_string(),
        status: "active".to_string(),
        description: "an entry".to_string(),
    }
}

fn registry(keys: &[(&str, &str)]) -> UnitRegistry {
    UnitRegistry {
        registry_version: "1.0".to_string(),
        description: "registry".to_string(),
        units: keys.iter().map(|(k, p)| (k.to_string(), entry(p))).collect(),
        reserved: Vec::new(),
        deprecated: Vec::new(),
    }
}

fn graph(nodes: &[(&str, &[&str])]) -> DependencyGraph {
    DependencyGraph {
        nodes: nodes
            .iter()
            .map(|(id, deps)| GraphNode {
                id: id.to_string(),
                deps: deps.iter().map(|d| d.to_string()).collect(),
            })
            .collect(),
    }
}

fn has_edge(g: &DependencyGraph, a: &str, b: &str) -> bool {
    g.nodes
        .iter()
        .any(|n| n.id == a && n.deps.iter().any(|d| d == b))
}

fn assert_valid_cycle(g: &DependencyGraph, cycle: &[String]) {
    assert!(cycle.len() >= 2);
    assert_eq!(cycle.first(), cycle.last());
    for w in cycle.windows(2) {
        assert!(has_edge(g, &w[0], &w[1]), "{} -> {} is not an edge", w[0], w[1]);
    }
}

#[test]
fn acyclic_detection_is_stable() {
    let g = graph(&[("a", &["b", "c"]), ("b", &["c"]), ("c", &[])]);
    match g.detect_cycle() {
        CycleReport::NoCycle => {}
        CycleReport::Found(p) => panic!("unexpected cycle {:?}", p),
    }
    match g.detect_cycle() {
        CycleReport::NoCycle => {}
        CycleReport::Found(p) => panic!("unexpected cycle {:?}", p),
    }
    assert_eq!(g.nodes.len(), 3);
    assert_eq!(g.nodes[0].id, "a");
    assert_eq!(g.nodes[0].deps, vec!["b".to_string(), "c".to_string()]);
}

#[test]
fn two_cycles_one_valid_cycle_reported() {
    let g = graph(&[
        ("a", &["b"]),
        ("b", &["a"]),
        ("x", &["y"]),
        ("y", &["z"]),
        ("z", &["x"]),
    ]);
    match g.detect_cycle() {
        CycleReport::NoCycle => panic!("cycle not found"),
        CycleReport::Found(p) => assert_valid_cycle(&g, &p),
    }
}

#[test]
fn dangling_edges_are_harmless() {
    let g = graph(&[("a", &["ghost", "b"]), ("b", &["phantom"])]);
    match g.detect_cycle() {
        CycleReport::NoCycle => {}
        CycleReport::Found(p) => panic!("unexpected cycle {:?}", p),
    }
}

#[test]
fn self_loop_reports_closed_pair() {
    let g = graph(&[("f", &["f"])]);
    match g.detect_cycle() {
        CycleReport::NoCycle => panic!("cycle not found"),
        CycleReport::Found(p) => assert_eq!(p, vec!["f".to_string(), "f".to_string()]),
    }
}

#[test]
fn self_loop_among_others() {
    let units = vec![unit("a", &["b"]), unit("b", &[]), unit("f", &["f"])];
    match graph_verify(&units) {
        CycleReport::NoCycle => panic!("cycle not found"),
        CycleReport::Found(p) => {
            assert_eq!(p, vec!["f".to_string(), "f".to_string()]);
        }
    }
}

#[test]
fn chain_passes() {
    // registry = {A, B, C}; A depends on B, B depends on C
    let units = vec![unit("A", &["B"]), unit("B", &["C"]), unit("C", &[])];
    match graph_verify(&units) {
        CycleReport::NoCycle => {}
        CycleReport::Found(p) => panic!("unexpected cycle {:?}", p),
    }
}

#[test]
fn two_cycle_shape() {
    let units = vec![unit("A", &["B"]), unit("B", &["A"])];
    let g = build_graph(&units);
    match graph_verify(&units) {
        CycleReport::NoCycle => panic!("cycle not found"),
        CycleReport::Found(p) => {
            assert_eq!(p.len(), 3);
            assert_eq!(p.first(), p.last());
            let mut inner: Vec<String> = p[..2].to_vec();
            inner.sort();
            assert_eq!(inner, vec!["A".to_string(), "B".to_string()]);
            assert_valid_cycle(&g, &p);
        }
    }
}

#[test]
fn last_declaration_wins() {
    let units = vec![unit("a", &["b"]), unit("b", &[]), unit("a", &[])];
    let g = build_graph(&units);
    assert_eq!(g.nodes.len(), 2);
    let a = g.nodes.iter().find(|n| n.id == "a").expect("node a");
    assert!(a.deps.is_empty());
    match g.detect_cycle() {
        CycleReport::NoCycle => {}
        CycleReport::Found(p) => panic!("unexpected cycle {:?}", p),
    }
}

#[test]
fn mismatch_names_both_identifiers() {
    // registry entry for unit D whose declared unit_id is E
    let reg = registry(&[("D", "standards/d")]);
    let mut u = unit("E", &[]);
    u.status = "active".to_string();
    let loads = vec![("D".to_string(), DeclarationLoad::Loaded(u))];
    let report = validate(&reg, &loads, &vec![true]);
    assert_eq!(report.len(), 2);
    assert_eq!(report[0], "D: unit_id mismatch (registry: D, file: E)");
    assert_eq!(report[1], "E: unit_id not in registry");
}

#[test]
fn legacy_unit_type_is_one_error() {
    let reg = registry(&[("F", "standards/f")]);
    let mut u = unit("F", &[]);
    u.unit_type = "legacy".to_string();
    let loads = vec![("F".to_string(), DeclarationLoad::Loaded(u))];
    let report = validate(&reg, &loads, &vec![true]);
    assert_eq!(report, vec!["F: Invalid unit_type: legacy".to_string()]);
}

#[test]
fn validator_reports_every_violation() {
    // three parse failures, one mismatch, two invalid statuses
    let reg = registry(&[
        ("a", "pa"),
        ("b", "pb"),
        ("c", "pc"),
        ("d", "pd"),
        ("e", "pe"),
        ("f", "pf"),
    ]);
    let mut bad_status_1 = unit("d", &[]);
    bad_status_1.status = "retired".to_string();
    let mut bad_status_2 = unit("e", &[]);
    bad_status_2.status = "gone".to_string();
    let mismatched = unit("zz", &[]);
    let loads = vec![
        ("a".to_string(), DeclarationLoad::ParseFailed("bad json".to_string())),
        ("b".to_string(), DeclarationLoad::ParseFailed("bad json".to_string())),
        ("c".to_string(), DeclarationLoad::ParseFailed("bad json".to_string())),
        ("d".to_string(), DeclarationLoad::Loaded(bad_status_1)),
        ("e".to_string(), DeclarationLoad::Loaded(bad_status_2)),
        ("f".to_string(), DeclarationLoad::Loaded(mismatched)),
    ];
    let report = validate(&reg, &loads, &vec![true; 6]);
    // 3 parse failures + 2 invalid statuses + 1 mismatch + 1 unknown id
    // (the mismatched identifier is not a registry key either)
    assert_eq!(report.len(), 7);
    assert_eq!(report[0], "a: Failed to parse declaration: bad json");
    assert_eq!(report[3], "d: Invalid status: retired");
    assert_eq!(report[5], "f: unit_id mismatch (registry: f, file: zz)");
}

#[test]
fn validator_completeness_exact_count() {
    // two parse failures, one mismatch (within the registry), one
    // invalid status: exactly four messages
    let reg = registry(&[("a", "pa"), ("b", "pb"), ("c", "pc"), ("d", "pd")]);
    let mismatched = unit("b", &[]);
    let mut bad_status = unit("d", &[]);
    bad_status.status = "retired".to_string();
    let loads = vec![
        ("a".to_string(), DeclarationLoad::ParseFailed("oops".to_string())),
        ("c".to_string(), DeclarationLoad::ParseFailed("oops".to_string())),
        ("x".to_string(), DeclarationLoad::Loaded(mismatched)),
        ("d".to_string(), DeclarationLoad::Loaded(bad_status)),
    ];
    let report = validate(&reg, &loads, &vec![true; 4]);
    assert_eq!(report.len(), 4);
}

#[test]
fn missing_declaration_and_missing_path() {
    let reg = registry(&[("a", "standards/a"), ("b", "standards/b")]);
    let loads = vec![
        ("a".to_string(), DeclarationLoad::Missing),
        ("b".to_string(), DeclarationLoad::Loaded(unit("b", &[]))),
    ];
    let report = validate(&reg, &loads, &vec![true, false]);
    assert_eq!(
        report,
        vec![
            "a: UNIT declaration missing".to_string(),
            "b: Path does not exist: standards/b".to_string(),
        ]
    );
}

#[test]
fn clean_registry_passes() {
    let reg = registry(&[("a", "pa"), ("b", "pb")]);
    let loads = vec![
        ("a".to_string(), DeclarationLoad::Loaded(unit("a", &["b"]))),
        ("b".to_string(), DeclarationLoad::Loaded(unit("b", &[]))),
    ];
    let report = validate(&reg, &loads, &vec![true, true]);
    assert!(report.is_empty());
}

#[test]
fn dangling_dependencies_through_verification() {
    let units = vec![unit("a", &["missing", "b"]), unit("b", &["ghost"])];
    match graph_verify(&units) {
        CycleReport::NoCycle => {}
        CycleReport::Found(p) => panic!("unexpected cycle {:?}", p),
    }
}
