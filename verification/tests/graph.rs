use capabara::build_graph_analysis::{
    analyze_dependency_graph, edge_kinds, DepGraph, Dependency, GraphError,
};
use capabara::dep_kind::DepKind::{Build, Dev, Normal, ProcMacro, Unknown};
use capabara::dep_kind::{
    combine, dependency_kind_from_edge_and_dependent, CrateInfo, CrateKind, DepKind, DepKindSet,
};

fn set(crate_kind: DepKind) -> DepKindSet {
    DepKindSet::of(crate_kind)
}

fn crate_info(crate_kind: CrateKind) -> CrateInfo {
    CrateInfo::of(crate_kind)
}

fn kinds_of<'a>(result: &'a [(String, DepKindSet)], id: &str) -> &'a DepKindSet {
    &result.iter().find(|(name, _)| name == id).unwrap().1
}

#[test]
fn test_graph() {
    let mut graph = DepGraph::new();
    graph.insert_node("binary", DepKind::Normal).unwrap();
    graph.add_edge("binary", "build_dep", set(DepKind::Build)).unwrap();
    graph.add_edge("build_dep", "3rd", set(DepKind::Normal)).unwrap();
    let result = graph.analyze();

    assert_eq!(kinds_of(&result, "binary"), &set(DepKind::Normal));
    assert_eq!(kinds_of(&result, "build_dep"), &set(DepKind::Build));
    assert_eq!(kinds_of(&result, "3rd"), &set(DepKind::Build));
}

#[test]
fn test_proc_macro() {
    let mut graph = DepGraph::new();
    graph.insert_node("binary", DepKind::Normal).unwrap();
    graph.add_edge("binary", "clap_derive", set(DepKind::ProcMacro)).unwrap();
    graph.add_edge("clap_derive", "proc-macro2", set(DepKind::Normal)).unwrap();

    let result = graph.analyze();
    assert_eq!(kinds_of(&result, "binary"), &set(DepKind::Normal));
    assert_eq!(kinds_of(&result, "clap_derive"), &set(DepKind::ProcMacro));
    assert_eq!(kinds_of(&result, "proc-macro2"), &set(DepKind::ProcMacro));
}

#[test]
fn test_dag() {
    let mut dag = DepGraph::new();
    dag.insert_node("binary", CrateKind::Normal).unwrap();
    dag.add_edge("binary", "build_dep", crate_info(CrateKind::Build)).unwrap();
    dag.add_edge("build_dep", "3rd", crate_info(CrateKind::Normal)).unwrap();
    let result = dag.analyze();

    assert_eq!(kinds_of(&result, "binary"), &crate_info(CrateKind::Normal));
    assert_eq!(kinds_of(&result, "build_dep"), &crate_info(CrateKind::Build));
    assert_eq!(kinds_of(&result, "3rd"), &crate_info(CrateKind::Build));
}

#[test]
fn combination_table() {
    let all = [Unknown, Normal, Build, Dev, ProcMacro];
    for edge in all {
        for dependent in all {
            let expected = if edge == Unknown || dependent == Unknown {
                Unknown
            } else if edge == Build || dependent == Build {
                Build
            } else if edge == ProcMacro || dependent == ProcMacro {
                ProcMacro
            } else if edge == Normal {
                dependent
            } else {
                Dev
            };
            assert_eq!(combine(edge, dependent), expected);
            assert_eq!(
                dependency_kind_from_edge_and_dependent(&set(edge), &set(dependent)),
                set(expected)
            );
        }
    }
    assert_eq!(combine(Normal, Dev), Dev);
    assert_eq!(combine(Dev, Normal), Dev);
    assert_eq!(combine(ProcMacro, Build), Build);
    assert_eq!(combine(Build, Unknown), Unknown);
}

#[test]
fn combination_of_sets() {
    let edge = DepKindSet::from_slice(&[Normal, Dev]);
    let dependent = DepKindSet::from_slice(&[Normal, Build]);
    assert_eq!(
        dependency_kind_from_edge_and_dependent(&edge, &dependent),
        DepKindSet::from_slice(&[Normal, Build, Dev])
    );
    let nothing = DepKindSet::new();
    assert_eq!(dependency_kind_from_edge_and_dependent(&edge, &nothing), nothing);
    assert_eq!(dependency_kind_from_edge_and_dependent(&nothing, &dependent), nothing);
    let all = DepKindSet::from_slice(&[Unknown, Normal, Build, Dev, ProcMacro]);
    assert_eq!(dependency_kind_from_edge_and_dependent(&all, &all), all);
    assert_eq!(
        dependency_kind_from_edge_and_dependent(&set(ProcMacro), &DepKindSet::from_slice(&[Dev, Build])),
        DepKindSet::from_slice(&[ProcMacro, Build])
    );
}

#[test]
fn cycles_are_tolerated_and_kinds_only_grow() {
    let mut graph = DepGraph::new();
    graph.insert_node("root", DepKind::Normal).unwrap();
    graph.add_edge("root", "a", set(DepKind::Normal)).unwrap();
    graph.add_edge("a", "b", set(DepKind::Dev)).unwrap();
    graph.add_edge("b", "a", set(DepKind::Normal)).unwrap();
    graph.add_edge("b", "b", set(DepKind::Build)).unwrap();
    graph.add_edge("other", "a", set(DepKind::Unknown)).unwrap();
    let before: Vec<DepKindSet> =
        ["root", "a", "b", "other"].iter().map(|id| graph.kinds_of(id).unwrap()).collect();
    let result = graph.analyze();
    let after: Vec<DepKindSet> =
        ["root", "a", "b", "other"].iter().map(|id| *kinds_of(&result, id)).collect();
    for (old, new) in before.iter().zip(&after) {
        assert!(old.is_subset(new));
    }
    assert_eq!(after[0], set(DepKind::Normal));
    assert_eq!(after[1], DepKindSet::from_slice(&[DepKind::Normal, DepKind::Dev, DepKind::Build]));
    assert_eq!(after[2], DepKindSet::from_slice(&[DepKind::Dev, DepKind::Build]));
    // A package that nothing reaches from a starting package has no kind.
    assert_eq!(after[3], DepKindSet::new());
}

#[test]
fn unknown_is_viral() {
    let mut graph = DepGraph::new();
    graph.insert_node("root", DepKind::Normal).unwrap();
    graph.add_edge("root", "a", set(DepKind::Unknown)).unwrap();
    graph.add_edge("a", "b", set(DepKind::Build)).unwrap();
    let result = graph.analyze();
    assert_eq!(kinds_of(&result, "a"), &set(DepKind::Unknown));
    assert_eq!(kinds_of(&result, "b"), &set(DepKind::Unknown));
}

#[test]
fn graph_from_declared_dependencies() {
    let starting = vec!["app".to_owned()];
    let deps = vec![
        Dependency {
            dependent: "app".to_owned(),
            dependency: "serde".to_owned(),
            kinds: edge_kinds(false, &[DepKind::Normal]),
        },
        Dependency {
            dependent: "app".to_owned(),
            dependency: "cc".to_owned(),
            kinds: edge_kinds(false, &[DepKind::Build, DepKind::Dev]),
        },
        Dependency {
            dependent: "serde".to_owned(),
            dependency: "serde_derive".to_owned(),
            kinds: edge_kinds(true, &[DepKind::Normal]),
        },
        Dependency {
            dependent: "serde_derive".to_owned(),
            dependency: "syn".to_owned(),
            kinds: edge_kinds(false, &[DepKind::Normal]),
        },
    ];
    let result = analyze_dependency_graph(&starting, &deps).unwrap();
    let names: Vec<&str> = result.iter().map(|(name, _)| name.as_str()).collect();
    assert_eq!(names, vec!["app", "serde", "cc", "serde_derive", "syn"]);
    assert_eq!(kinds_of(&result, "app"), &set(DepKind::Normal));
    assert_eq!(kinds_of(&result, "serde"), &set(DepKind::Normal));
    assert_eq!(kinds_of(&result, "cc"), &DepKindSet::from_slice(&[DepKind::Build, DepKind::Dev]));
    assert_eq!(kinds_of(&result, "serde_derive"), &set(DepKind::ProcMacro));
    assert_eq!(kinds_of(&result, "syn"), &set(DepKind::ProcMacro));
}

#[test]
fn starting_package_named_twice() {
    let starting = vec!["app".to_owned(), "lib".to_owned(), "app".to_owned()];
    assert_eq!(analyze_dependency_graph(&starting, &vec![]).err(), Some(GraphError::NodeExists));
    let mut graph = DepGraph::new();
    assert_eq!(graph.insert_node("a", DepKind::Normal), Ok(0));
    assert_eq!(graph.insert_node("a", DepKind::Build), Err(GraphError::NodeExists));
    assert_eq!(graph.node_of("a"), Ok(0));
    assert_eq!(graph.node_of("b"), Ok(1));
    assert_eq!(graph.kinds_of("b"), Some(DepKindSet::new()));
    assert_eq!(graph.kinds_of("c"), None);
}

#[test]
fn parallel_edges_and_edge_order() {
    let mut graph = DepGraph::new();
    graph.insert_node("root", DepKind::Normal).unwrap();
    graph.add_edge("root", "a", set(DepKind::Dev)).unwrap();
    graph.add_edge("root", "a", set(DepKind::Build)).unwrap();
    graph.add_edge("root", "b", set(DepKind::Normal)).unwrap();
    let result = graph.analyze();
    assert_eq!(kinds_of(&result, "a"), &DepKindSet::from_slice(&[DepKind::Dev, DepKind::Build]));
    assert_eq!(kinds_of(&result, "b"), &set(DepKind::Normal));
}
