use cargo_danger::builder::build_graph;
use cargo_danger::closure::resolve_closure;
use cargo_danger::duplicates::find_duplicates;
use cargo_danger::error::ResolveError;
use cargo_danger::graph::{DependencyGraph, Edge};
use cargo_danger::identity::PackageIdentity;
use cargo_danger::metadata::{
    Dependency, DependencyKind, DependencySpec, PackageRecord, Provider,
};
use cargo_danger::format::{Charset, Prefix};
use cargo_danger::platform::{Flag, Predicate};
use cargo_danger::render::{render, RenderOptions};

fn pkg(name: &str, version: &str) -> PackageIdentity {
    PackageIdentity::new(name, version, "registry")
}

fn plain(name: &str, kind: DependencyKind) -> (String, DependencySpec) {
    (name.to_string(), DependencySpec { kind, platform: None })
}

fn gated(name: &str, kind: DependencyKind, platform: Predicate) -> (String, DependencySpec) {
    (name.to_string(), DependencySpec { kind, platform: Some(platform) })
}

/// Each resolved dependency fulfils the specifications that ask for its name.
fn entry(
    name: &str,
    version: &str,
    dependencies: Vec<PackageIdentity>,
    specs: Vec<(String, DependencySpec)>,
) -> PackageRecord {
    let mut specs: Vec<Option<(String, DependencySpec)>> = specs.into_iter().map(Some).collect();
    let mut list = Vec::new();
    for id in dependencies {
        let mut fulfilled = Vec::new();
        for slot in specs.iter_mut() {
            if slot.as_ref().map(|(asked, _)| *asked == id.name).unwrap_or(false) {
                fulfilled.push(slot.take().unwrap().1);
            }
        }
        list.push(Dependency { id, specs: fulfilled });
    }
    PackageRecord {
        id: pkg(name, version),
        dependencies: list,
        source_root: format!("/src/{}-{}", name, version),
    }
}

fn os(name: &str) -> Flag {
    Flag::KeyValue("target_os".to_string(), name.to_string())
}

fn windows_only() -> Predicate {
    Predicate::Flag(os("windows"))
}

fn handle(graph: &DependencyGraph, name: &str) -> usize {
    graph.nodes().iter().position(|n| n.name == name).unwrap()
}

#[test]
fn graph_has_root_first_and_every_reached_package_once() {
    let provider = Provider {
        packages: vec![
            entry(
                "app",
                "0.1.0",
                vec![pkg("lib", "1.0.0"), pkg("util", "1.0.0")],
                vec![plain("lib", DependencyKind::Normal), plain("util", DependencyKind::Normal)],
            ),
            entry(
                "lib",
                "1.0.0",
                vec![pkg("util", "1.0.0")],
                vec![plain("util", DependencyKind::Normal)],
            ),
            entry("util", "1.0.0", vec![], vec![]),
        ],
        replacements: vec![],
    };
    let root = pkg("app", "0.1.0");
    let resolved = resolve_closure(&provider, &root, false).unwrap();
    let graph = build_graph(&provider, &resolved, &root, None, &vec![]).unwrap();
    assert_eq!(graph.nodes().len(), 3);
    assert_eq!(graph.nodes()[0], root);
    let (app, lib, util) = (handle(&graph, "app"), handle(&graph, "lib"), handle(&graph, "util"));
    let mut edges: Vec<(usize, usize)> = graph.edges().iter().map(|e| (e.from, e.to)).collect();
    edges.sort();
    let mut expected = vec![(app, lib), (app, util), (lib, util)];
    expected.sort();
    assert_eq!(edges, expected);
    assert!(graph.edges().iter().all(|e| e.kind == DependencyKind::Normal));
}

#[test]
fn breadth_first_order_of_nodes() {
    let provider = Provider {
        packages: vec![
            entry(
                "app",
                "0.1.0",
                vec![pkg("one", "1.0.0"), pkg("two", "1.0.0")],
                vec![plain("one", DependencyKind::Normal), plain("two", DependencyKind::Normal)],
            ),
            entry(
                "one",
                "1.0.0",
                vec![pkg("deep", "1.0.0")],
                vec![plain("deep", DependencyKind::Normal)],
            ),
            entry("two", "1.0.0", vec![], vec![]),
            entry("deep", "1.0.0", vec![], vec![]),
        ],
        replacements: vec![],
    };
    let root = pkg("app", "0.1.0");
    let resolved = resolve_closure(&provider, &root, false).unwrap();
    let graph = build_graph(&provider, &resolved, &root, None, &vec![]).unwrap();
    let order: Vec<&str> = graph.nodes().iter().map(|n| n.name.as_str()).collect();
    assert_eq!(order, vec!["app", "one", "two", "deep"]);
}

#[test]
fn cycle_gives_two_nodes_and_two_edges() {
    let provider = Provider {
        packages: vec![
            entry("a", "1.0.0", vec![pkg("b", "1.0.0")], vec![plain("b", DependencyKind::Normal)]),
            entry("b", "1.0.0", vec![pkg("a", "1.0.0")], vec![plain("a", DependencyKind::Normal)]),
        ],
        replacements: vec![],
    };
    let root = pkg("a", "1.0.0");
    let resolved = resolve_closure(&provider, &root, false).unwrap();
    let graph = build_graph(&provider, &resolved, &root, None, &vec![]).unwrap();
    assert_eq!(graph.nodes().len(), 2);
    assert_eq!(graph.edges().len(), 2);
    assert!(graph.edges().contains(&Edge { from: 0, to: 1, kind: DependencyKind::Normal }));
    assert!(graph.edges().contains(&Edge { from: 1, to: 0, kind: DependencyKind::Normal }));
}

fn windows_provider() -> Provider {
    Provider {
        packages: vec![
            entry(
                "app",
                "0.1.0",
                vec![pkg("winapi", "0.3.0"), pkg("libc", "0.2.0")],
                vec![
                    gated("winapi", DependencyKind::Normal, windows_only()),
                    plain("libc", DependencyKind::Normal),
                ],
            ),
            entry("winapi", "0.3.0", vec![], vec![]),
            entry("libc", "0.2.0", vec![], vec![]),
        ],
        replacements: vec![],
    }
}

#[test]
fn windows_edge_is_excluded_on_linux_but_resolved() {
    let provider = windows_provider();
    let root = pkg("app", "0.1.0");
    let resolved = resolve_closure(&provider, &root, false).unwrap();
    assert!(resolved.contains(&pkg("winapi", "0.3.0")));
    let flags = vec![os("linux")];
    let graph =
        build_graph(&provider, &resolved, &root, Some("x86_64-unknown-linux-gnu"), &flags).unwrap();
    assert_eq!(graph.nodes().len(), 2);
    assert!(!graph.nodes().contains(&pkg("winapi", "0.3.0")));
    assert!(graph.nodes().contains(&pkg("libc", "0.2.0")));
    assert_eq!(graph.edges().len(), 1);
    let options = RenderOptions {
        invert: false,
        show_all: false,
        prefix: Prefix::Indent,
        charset: Charset::Ascii,
        format: "{n} {v}".to_string(),
        duplicates_only: false,
    };
    let text = render(&graph, &vec![], &options);
    assert_eq!(text, "app 0.1.0\n`-- libc 0.2.0\n");
    assert!(!text.contains("winapi"));
}

#[test]
fn windows_edge_is_kept_on_windows() {
    let provider = windows_provider();
    let root = pkg("app", "0.1.0");
    let resolved = resolve_closure(&provider, &root, false).unwrap();
    let flags = vec![os("windows")];
    let graph =
        build_graph(&provider, &resolved, &root, Some("x86_64-pc-windows-msvc"), &flags).unwrap();
    assert_eq!(graph.nodes().len(), 3);
    assert_eq!(graph.edges().len(), 2);
}

#[test]
fn no_active_platform_matches_everything() {
    let provider = windows_provider();
    let root = pkg("app", "0.1.0");
    let resolved = resolve_closure(&provider, &root, false).unwrap();
    let graph = build_graph(&provider, &resolved, &root, None, &vec![os("linux")]).unwrap();
    assert_eq!(graph.nodes().len(), 3);
}

#[test]
fn specifications_that_differ_in_platform_give_one_edge_per_kind() {
    let provider = Provider {
        packages: vec![
            entry(
                "app",
                "0.1.0",
                vec![pkg("lib", "1.0.0")],
                vec![
                    gated("lib", DependencyKind::Normal, Predicate::Flag(os("linux"))),
                    gated("lib", DependencyKind::Normal, Predicate::Flag(Flag::Name("unix".to_string()))),
                    plain("lib", DependencyKind::Build),
                ],
            ),
            entry("lib", "1.0.0", vec![], vec![]),
        ],
        replacements: vec![],
    };
    let root = pkg("app", "0.1.0");
    let resolved = resolve_closure(&provider, &root, false).unwrap();
    let flags = vec![os("linux"), Flag::Name("unix".to_string())];
    let graph = build_graph(&provider, &resolved, &root, Some("x86_64-unknown-linux-gnu"), &flags)
        .unwrap();
    let mut kinds: Vec<String> = graph.edges().iter().map(|e| format!("{:?}", e.kind)).collect();
    kinds.sort();
    assert_eq!(kinds, vec!["Build", "Normal"]);
}

#[test]
fn packages_outside_the_resolved_set_get_no_node() {
    let provider = Provider {
        packages: vec![
            entry(
                "app",
                "0.1.0",
                vec![pkg("lib", "1.0.0"), pkg("bench", "1.0.0")],
                vec![plain("lib", DependencyKind::Normal), plain("bench", DependencyKind::Development)],
            ),
            entry("lib", "1.0.0", vec![], vec![]),
            entry("bench", "1.0.0", vec![], vec![]),
        ],
        replacements: vec![],
    };
    let root = pkg("app", "0.1.0");
    let narrow = resolve_closure(&provider, &root, false).unwrap();
    let graph = build_graph(&provider, &narrow, &root, None, &vec![]).unwrap();
    assert_eq!(graph.nodes().len(), 2);
    let wide = resolve_closure(&provider, &root, true).unwrap();
    let graph = build_graph(&provider, &wide, &root, None, &vec![]).unwrap();
    assert_eq!(graph.nodes().len(), 3);
    let bench = handle(&graph, "bench");
    assert!(graph.edges().contains(&Edge { from: 0, to: bench, kind: DependencyKind::Development }));
}

#[test]
fn graph_builder_reports_a_dependency_without_specification() {
    let provider = Provider {
        packages: vec![
            entry("app", "0.1.0", vec![pkg("lib", "1.0.0")], vec![]),
            entry("lib", "1.0.0", vec![], vec![]),
        ],
        replacements: vec![],
    };
    let root = pkg("app", "0.1.0");
    let resolved = vec![pkg("app", "0.1.0"), pkg("lib", "1.0.0")];
    match build_graph(&provider, &resolved, &root, None, &vec![]) {
        Err(ResolveError::DependencyLookupError { package, dependency }) => {
            assert_eq!(package, root);
            assert_eq!(dependency, pkg("lib", "1.0.0"));
        }
        other => panic!("unexpected: {:?}", other),
    }
}

#[test]
fn graph_builder_reports_a_package_that_is_not_described() {
    let provider = Provider {
        packages: vec![entry(
            "app",
            "0.1.0",
            vec![pkg("lib", "1.0.0")],
            vec![plain("lib", DependencyKind::Normal)],
        )],
        replacements: vec![],
    };
    let root = pkg("app", "0.1.0");
    let resolved = vec![pkg("app", "0.1.0"), pkg("lib", "1.0.0")];
    match build_graph(&provider, &resolved, &root, None, &vec![]) {
        Err(ResolveError::MetadataLookupError { missing }) => assert_eq!(missing, pkg("lib", "1.0.0")),
        other => panic!("unexpected: {:?}", other),
    }
    match build_graph(&provider, &resolved, &pkg("nobody", "0.0.0"), None, &vec![]) {
        Err(ResolveError::MetadataLookupError { missing }) => {
            assert_eq!(missing, pkg("nobody", "0.0.0"))
        }
        other => panic!("unexpected: {:?}", other),
    }
}

#[test]
fn lookup_or_create_makes_each_node_once() {
    let graph = DependencyGraph::new();
    let (graph, a) = graph.add_node(&pkg("a", "1.0.0"));
    let (graph, b) = graph.add_node(&pkg("b", "1.0.0"));
    let (graph, again) = graph.add_node(&pkg("a", "1.0.0"));
    assert_eq!((a, b, again), (0, 1, 0));
    assert_eq!(graph.nodes().len(), 2);
    assert_eq!(graph.find_node(&pkg("b", "1.0.0")), Some(1));
    assert_eq!(graph.find_node(&pkg("c", "1.0.0")), None);
    let graph = graph.add_edge(a, b, DependencyKind::Normal);
    let graph = graph.add_edge(a, b, DependencyKind::Normal);
    let graph = graph.add_edge(a, b, DependencyKind::Build);
    assert_eq!(graph.edges().len(), 2);
}

#[test]
fn two_left_pads_are_duplicates_and_right_pad_is_not() {
    let graph = DependencyGraph::new();
    let (graph, _) = graph.add_node(&pkg("left-pad", "2.0"));
    let (graph, _) = graph.add_node(&pkg("right-pad", "1.0"));
    let (graph, _) = graph.add_node(&pkg("left-pad", "1.0"));
    let duplicates = find_duplicates(&graph);
    assert_eq!(duplicates, vec![pkg("left-pad", "1.0"), pkg("left-pad", "2.0")]);
}

#[test]
fn distinct_names_have_no_duplicates() {
    let graph = DependencyGraph::new();
    let (graph, _) = graph.add_node(&pkg("a", "1.0"));
    let (graph, _) = graph.add_node(&pkg("b", "1.0"));
    let (graph, _) = graph.add_node(&pkg("c", "1.0"));
    assert!(find_duplicates(&graph).is_empty());
    assert!(find_duplicates(&DependencyGraph::new()).is_empty());
}

#[test]
fn duplicates_are_sorted_by_name_then_version_then_source() {
    let graph = DependencyGraph::new();
    let (graph, _) = graph.add_node(&PackageIdentity::new("z", "1.0", "b"));
    let (graph, _) = graph.add_node(&PackageIdentity::new("m", "2.0", "a"));
    let (graph, _) = graph.add_node(&PackageIdentity::new("z", "1.0", "a"));
    let (graph, _) = graph.add_node(&PackageIdentity::new("m", "10.0", "a"));
    let (graph, _) = graph.add_node(&PackageIdentity::new("solo", "1.0", "a"));
    let (graph, _) = graph.add_node(&PackageIdentity::new("z", "0.9", "c"));
    let first = find_duplicates(&graph);
    let expected = vec![
        PackageIdentity::new("m", "10.0", "a"),
        PackageIdentity::new("m", "2.0", "a"),
        PackageIdentity::new("z", "0.9", "c"),
        PackageIdentity::new("z", "1.0", "a"),
        PackageIdentity::new("z", "1.0", "b"),
    ];
    assert_eq!(first, expected);
    assert_eq!(find_duplicates(&graph), first);
}

#[test]
fn duplicates_of_a_built_graph() {
    let provider = Provider {
        packages: vec![
            entry(
                "app",
                "0.1.0",
                vec![pkg("left-pad", "1.0"), pkg("mid", "1.0"), pkg("right-pad", "1.0")],
                vec![
                    plain("left-pad", DependencyKind::Normal),
                    plain("mid", DependencyKind::Normal),
                    plain("right-pad", DependencyKind::Normal),
                ],
            ),
            entry("left-pad", "1.0", vec![], vec![]),
            entry(
                "mid",
                "1.0",
                vec![pkg("left-pad", "2.0")],
                vec![plain("left-pad", DependencyKind::Normal)],
            ),
            entry("left-pad", "2.0", vec![], vec![]),
            entry("right-pad", "1.0", vec![], vec![]),
        ],
        replacements: vec![],
    };
    let root = pkg("app", "0.1.0");
    let resolved = resolve_closure(&provider, &root, false).unwrap();
    let graph = build_graph(&provider, &resolved, &root, None, &vec![]).unwrap();
    assert_eq!(find_duplicates(&graph), vec![pkg("left-pad", "1.0"), pkg("left-pad", "2.0")]);
}
