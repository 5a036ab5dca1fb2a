use workspace_patch::graph::{DependencyGraph, Package};

fn package(id: &str, name: &str, source: Option<&str>, dir: &str, deps: &[&str]) -> Package {
    Package {
        id: id.to_string(),
        name: name.to_string(),
        source: source.map(|s| s.to_string()),
        manifest_dir: dir.to_string(),
        dependencies: deps.iter().map(|d| d.to_string()).collect(),
    }
}

#[test]
fn graph_keeps_what_it_was_built_from() {
    let graph = DependencyGraph::new(
        vec![
            package("a 0.1.0", "a", None, "/ws/a", &["b"]),
            package("b 0.1.0", "b", Some("git+https://example.org/b"), "/cache/b", &[]),
        ],
        Some("a 0.1.0".to_string()),
        vec!["a 0.1.0".to_string()],
    )
    .unwrap();
    assert_eq!(graph.packages().len(), 2);
    assert_eq!(graph.packages()[1].name, "b");
    assert_eq!(graph.root(), &Some("a 0.1.0".to_string()));
    assert_eq!(graph.workspace_members(), &vec!["a 0.1.0".to_string()]);
}

#[test]
fn graph_with_a_repeated_identity_is_refused() {
    let graph = DependencyGraph::new(
        vec![
            package("a 0.1.0", "a", None, "/ws/a", &[]),
            package("b 0.1.0", "b", None, "/ws/b", &[]),
            package("a 0.1.0", "c", None, "/ws/c", &[]),
        ],
        None,
        vec![],
    );
    assert!(graph.is_none());
}

#[test]
fn graph_may_be_empty_and_names_may_repeat() {
    assert!(DependencyGraph::new(vec![], None, vec![]).is_some());
    let graph = DependencyGraph::new(
        vec![
            package("a 0.1.0", "a", None, "/ws/a1", &[]),
            package("a 0.2.0", "a", None, "/ws/a2", &[]),
        ],
        None,
        vec![],
    );
    assert!(graph.is_some());
}

#[test]
fn package_is_found_by_identity() {
    let graph = DependencyGraph::new(
        vec![
            package("a 0.1.0", "a", None, "/ws/a1", &[]),
            package("a 0.2.0", "a", None, "/ws/a2", &[]),
        ],
        None,
        vec![],
    )
    .unwrap();
    assert_eq!(graph.package(&"a 0.2.0".to_string()).unwrap().manifest_dir, "/ws/a2");
    assert_eq!(graph.package(&"a 0.1.0".to_string()).unwrap().manifest_dir, "/ws/a1");
    assert!(graph.package(&"a".to_string()).is_none());
}

#[test]
fn package_named_takes_the_first_of_that_name() {
    let graph = DependencyGraph::new(
        vec![
            package("z 1.0.0", "z", None, "/ws/z", &[]),
            package("a 0.1.0", "a", None, "/ws/a1", &[]),
            package("a 0.2.0", "a", None, "/ws/a2", &[]),
        ],
        None,
        vec![],
    )
    .unwrap();
    let found = graph.package_named(&"a".to_string()).unwrap();
    assert_eq!(found.id, "a 0.1.0");
    assert_eq!(found.manifest_dir, "/ws/a1");
    assert!(graph.package_named(&"b".to_string()).is_none());
}
