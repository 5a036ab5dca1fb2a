use url::ParseError;
use workspace_patch::active::ActiveSet;
use workspace_patch::error::ResolveError;
use workspace_patch::graph::{DependencyGraph, Package};
use workspace_patch::overrides::{has_conflicting_override, OverrideEntry, OverrideGroup};
use workspace_patch::resolver::{
    contains_name, patch_overrides, resolve_group, resolve_groups, resolve_names,
    resolve_overrides, select_overridable, workspace_member_names,
};

const REPO: &str = "git+https://example.org/repo?rev=abc#x";
const REGISTRY: &str = "registry+https://github.com/rust-lang/crates.io-index";

fn package(id: &str, name: &str, source: Option<&str>, dir: &str, deps: &[&str]) -> Package {
    Package {
        id: id.to_string(),
        name: name.to_string(),
        source: source.map(|s| s.to_string()),
        manifest_dir: dir.to_string(),
        dependencies: deps.iter().map(|d| d.to_string()).collect(),
    }
}

fn graph(packages: Vec<Package>, root: Option<&str>, members: &[&str]) -> DependencyGraph {
    DependencyGraph::new(
        packages,
        root.map(|r| r.to_string()),
        members.iter().map(|m| m.to_string()).collect(),
    )
    .unwrap()
}

fn names(list: &[&str]) -> Vec<String> {
    list.iter().map(|n| n.to_string()).collect()
}

fn active(list: &[&str]) -> ActiveSet {
    ActiveSet::from_names(&names(list))
}

fn entry(name: &str, directory: &str) -> OverrideEntry {
    OverrideEntry { name: name.to_string(), directory: directory.to_string() }
}

fn source_workspace() -> DependencyGraph {
    graph(
        vec![
            package("core 0.1.0 (path+file:///src/core)", "core", None, "/src/core", &[]),
            package("util 0.1.0 (path+file:///src/util)", "util", None, "/src/util", &[]),
        ],
        None,
        &["core 0.1.0 (path+file:///src/core)", "util 0.1.0 (path+file:///src/util)"],
    )
}

fn sorted(mut groups: Vec<OverrideGroup>) -> Vec<OverrideGroup> {
    groups.sort_by(|a, b| a.origin.cmp(&b.origin).then(a.entries.len().cmp(&b.entries.len())));
    groups
}

#[test]
fn end_to_end_only_the_active_member_is_overridden() {
    let destination = graph(
        vec![
            package("app", "app", None, "/dst/app", &["core"]),
            package("core (git)", "core", Some(REPO), "/cache/core", &["util"]),
            package("util (git)", "util", Some(REPO), "/cache/util", &[]),
        ],
        Some("app"),
        &["app"],
    );
    let groups = patch_overrides(&source_workspace(), &destination).unwrap();
    assert_eq!(
        groups,
        vec![OverrideGroup {
            origin: "https://example.org/repo".to_string(),
            entries: vec![entry("core", "/src/core")],
        }]
    );
}

#[test]
fn member_from_a_plain_registry_gets_no_group() {
    let destination = graph(
        vec![
            package("app", "app", None, "/dst/app", &["core"]),
            package("core (registry)", "core", Some(REGISTRY), "/cache/core", &[]),
        ],
        Some("app"),
        &["app"],
    );
    assert_eq!(patch_overrides(&source_workspace(), &destination), Ok(vec![]));
}

#[test]
fn member_without_a_locator_gets_no_group() {
    let destination = graph(
        vec![
            package("app", "app", None, "/dst/app", &["core"]),
            package("core (path)", "core", None, "/dst/core", &[]),
        ],
        Some("app"),
        &["app"],
    );
    assert_eq!(patch_overrides(&source_workspace(), &destination), Ok(vec![]));
}

#[test]
fn package_that_is_no_member_gets_no_group() {
    let destination = graph(
        vec![
            package("app", "app", None, "/dst/app", &["other"]),
            package("other (git)", "other", Some(REPO), "/cache/other", &[]),
        ],
        Some("app"),
        &["app"],
    );
    assert_eq!(patch_overrides(&source_workspace(), &destination), Ok(vec![]));
}

#[test]
fn inactive_git_member_leaves_an_empty_group() {
    let destination = graph(
        vec![
            package("app", "app", None, "/dst/app", &["other"]),
            package("other", "other", Some(REGISTRY), "/cache/other", &["util"]),
            package("util (git)", "util", Some(REPO), "/cache/util", &[]),
        ],
        Some("app"),
        &["app"],
    );
    assert_eq!(
        patch_overrides(&source_workspace(), &destination),
        Ok(vec![OverrideGroup { origin: "https://example.org/repo".to_string(), entries: vec![] }])
    );
}

#[test]
fn active_git_member_gets_exactly_one_entry() {
    let destination = graph(
        vec![
            package("app", "app", None, "/dst/app", &["util", "serde"]),
            package("serde", "serde", Some(REGISTRY), "/cache/serde", &[]),
            package("util (git)", "util", Some("git+ssh://git@example.org/ws.git"), "/cache/util", &[]),
        ],
        Some("app"),
        &["app"],
    );
    let groups = patch_overrides(&source_workspace(), &destination).unwrap();
    assert_eq!(groups.len(), 1);
    assert_eq!(groups[0].origin, "ssh://git@example.org/ws.git");
    assert_eq!(groups[0].entries, vec![entry("util", "/src/util")]);
}

#[test]
fn packages_of_one_raw_locator_share_a_group() {
    let destination = graph(
        vec![
            package("app", "app", None, "/dst/app", &["util", "core"]),
            package("util (git)", "util", Some(REPO), "/cache/util", &[]),
            package("core (git)", "core", Some(REPO), "/cache/core", &[]),
        ],
        Some("app"),
        &["app"],
    );
    let groups = patch_overrides(&source_workspace(), &destination).unwrap();
    assert_eq!(
        groups,
        vec![OverrideGroup {
            origin: "https://example.org/repo".to_string(),
            entries: vec![entry("util", "/src/util"), entry("core", "/src/core")],
        }]
    );
}

#[test]
fn raw_locators_that_differ_stay_apart_even_with_one_canonical_form() {
    let destination = graph(
        vec![
            package("app", "app", None, "/dst/app", &["util", "core"]),
            package("util (git)", "util", Some("git+https://example.org/repo?rev=1"), "/c/u", &[]),
            package("core (git)", "core", Some("git+https://example.org/repo?rev=2"), "/c/c", &[]),
        ],
        Some("app"),
        &["app"],
    );
    let groups = sorted(patch_overrides(&source_workspace(), &destination).unwrap());
    assert_eq!(groups.len(), 2);
    assert_eq!(groups[0].origin, "https://example.org/repo");
    assert_eq!(groups[1].origin, "https://example.org/repo");
    let mut entries: Vec<OverrideEntry> =
        groups.iter().flat_map(|g| g.entries.iter().cloned()).collect();
    entries.sort_by(|a, b| a.name.cmp(&b.name));
    assert_eq!(entries, vec![entry("core", "/src/core"), entry("util", "/src/util")]);
    assert_eq!(groups[0].entries.len(), 1);
    assert_eq!(groups[1].entries.len(), 1);
}

#[test]
fn distinct_origins_give_distinct_groups() {
    let destination = graph(
        vec![
            package("app", "app", None, "/dst/app", &["util", "core"]),
            package("util (git)", "util", Some("git+https://b.example.org/u"), "/c/u", &[]),
            package("core (git)", "core", Some("git+https://a.example.org/c"), "/c/c", &[]),
        ],
        Some("app"),
        &["app"],
    );
    let groups = sorted(patch_overrides(&source_workspace(), &destination).unwrap());
    assert_eq!(
        groups,
        vec![
            OverrideGroup {
                origin: "https://a.example.org/c".to_string(),
                entries: vec![entry("core", "/src/core")],
            },
            OverrideGroup {
                origin: "https://b.example.org/u".to_string(),
                entries: vec![entry("util", "/src/util")],
            },
        ]
    );
}

#[test]
fn dependencies_of_destination_members_are_active_too() {
    let destination = graph(
        vec![
            package("app", "app", None, "/dst/app", &[]),
            package("tool", "tool", None, "/dst/tool", &["util"]),
            package("util (git)", "util", Some(REPO), "/cache/util", &[]),
        ],
        Some("app"),
        &["app", "tool"],
    );
    let groups = patch_overrides(&source_workspace(), &destination).unwrap();
    assert_eq!(groups.len(), 1);
    assert_eq!(groups[0].entries, vec![entry("util", "/src/util")]);
}

#[test]
fn malformed_git_locator_fails_the_whole_resolution() {
    let destination = graph(
        vec![
            package("app", "app", None, "/dst/app", &["util", "core"]),
            package("util (git)", "util", Some(REPO), "/cache/util", &[]),
            package("core (git)", "core", Some("git+https://example.org:99999/c"), "/c/c", &[]),
        ],
        Some("app"),
        &["app"],
    );
    assert_eq!(
        patch_overrides(&source_workspace(), &destination),
        Err(ResolveError::LocatorParseError(ParseError::InvalidPort))
    );
    let bare = graph(
        vec![
            package("app", "app", None, "/dst/app", &[]),
            package("core (git)", "core", Some("git+"), "/c/c", &[]),
        ],
        Some("app"),
        &["app"],
    );
    assert_eq!(
        patch_overrides(&source_workspace(), &bare),
        Err(ResolveError::LocatorParseError(ParseError::RelativeUrlWithoutBase))
    );
}

#[test]
fn destination_without_resolvable_root_is_refused() {
    let no_root = graph(vec![package("app", "app", None, "/dst/app", &[])], None, &["app"]);
    assert_eq!(patch_overrides(&source_workspace(), &no_root), Err(ResolveError::MissingRoot));
    let lost_root = graph(vec![package("app", "app", None, "/dst/app", &[])], Some("x"), &[]);
    assert_eq!(patch_overrides(&source_workspace(), &lost_root), Err(ResolveError::MissingRoot));
}

#[test]
fn unresolvable_members_are_refused_destination_first() {
    let broken_source = graph(
        vec![package("core", "core", None, "/src/core", &[])],
        None,
        &["core", "gone"],
    );
    let destination = graph(vec![package("app", "app", None, "/dst/app", &[])], Some("app"), &[]);
    assert_eq!(
        patch_overrides(&broken_source, &destination),
        Err(ResolveError::MemberNotFound)
    );
    assert_eq!(
        resolve_overrides(&broken_source, &destination, &active(&[])),
        Err(ResolveError::MemberNotFound)
    );
    let broken_destination =
        graph(vec![package("app", "app", None, "/dst/app", &[])], None, &["gone"]);
    assert_eq!(
        patch_overrides(&broken_source, &broken_destination),
        Err(ResolveError::MissingRoot)
    );
}

#[test]
fn resolver_takes_the_active_set_as_given() {
    let destination = graph(
        vec![
            package("util (git)", "util", Some(REPO), "/cache/util", &[]),
            package("core (git)", "core", Some(REPO), "/cache/core", &[]),
        ],
        None,
        &[],
    );
    let groups = resolve_overrides(&source_workspace(), &destination, &active(&["core"])).unwrap();
    assert_eq!(groups.len(), 1);
    assert_eq!(groups[0].origin, "https://example.org/repo");
    assert_eq!(groups[0].entries, vec![entry("core", "/src/core")]);
}

#[test]
fn directory_is_that_of_the_first_source_package_of_the_name() {
    let source = graph(
        vec![
            package("core 0.1.0", "core", Some(REGISTRY), "/registry/core-0.1.0", &[]),
            package("core 0.2.0", "core", None, "/src/core", &[]),
        ],
        None,
        &["core 0.2.0"],
    );
    let destination = graph(
        vec![
            package("app", "app", None, "/dst/app", &["core"]),
            package("core (git)", "core", Some(REPO), "/cache/core", &[]),
        ],
        Some("app"),
        &["app"],
    );
    let groups = patch_overrides(&source, &destination).unwrap();
    assert_eq!(groups[0].entries, vec![entry("core", "/registry/core-0.1.0")]);
}

#[test]
fn member_names_follow_the_members() {
    assert_eq!(workspace_member_names(&source_workspace()), Ok(names(&["core", "util"])));
    let virtual_root = graph(vec![package("a", "a", None, "/a", &[])], None, &[]);
    assert_eq!(workspace_member_names(&virtual_root), Ok(vec![]));
    let broken = graph(vec![package("a", "a", None, "/a", &[])], None, &["a", "b"]);
    assert_eq!(workspace_member_names(&broken), Err(ResolveError::MemberNotFound));
}

#[test]
fn candidates_are_selected_in_graph_order() {
    let destination = graph(
        vec![
            package("1", "util", Some(REPO), "/1", &[]),
            package("2", "core", Some(REGISTRY), "/2", &[]),
            package("3", "core", None, "/3", &[]),
            package("4", "other", Some(REPO), "/4", &[]),
            package("5", "core", Some("git+https://example.org/core"), "/5", &[]),
            package("6", "util", Some(REPO), "/6", &[]),
        ],
        None,
        &[],
    );
    assert_eq!(
        select_overridable(&destination, &names(&["core", "util"])),
        vec![
            (REPO.to_string(), "util".to_string()),
            ("git+https://example.org/core".to_string(), "core".to_string()),
            (REPO.to_string(), "util".to_string()),
        ]
    );
    assert_eq!(select_overridable(&destination, &names(&[])), vec![]);
    assert!(contains_name(&names(&["core", "util"]), &"util".to_string()));
    assert!(!contains_name(&names(&["core", "util"]), &"uti".to_string()));
}

#[test]
fn names_are_filtered_and_looked_up_in_order() {
    let source = source_workspace();
    assert_eq!(
        resolve_names(&source, &active(&["util", "core"]), &names(&["util", "x", "core", "util"])),
        Ok(vec![entry("util", "/src/util"), entry("core", "/src/core"), entry("util", "/src/util")])
    );
    assert_eq!(resolve_names(&source, &active(&[]), &names(&["util", "gone"])), Ok(vec![]));
    assert_eq!(resolve_names(&source, &active(&["util"]), &names(&[])), Ok(vec![]));
}

#[test]
fn active_name_without_source_package_is_not_found() {
    let source = source_workspace();
    assert_eq!(
        resolve_names(&source, &active(&["gone", "core"]), &names(&["core", "gone"])),
        Err(ResolveError::SourceMemberNotFound)
    );
    assert_eq!(
        resolve_group(&source, &active(&["gone"]), &REPO.to_string(), &names(&["gone"])),
        Err(ResolveError::SourceMemberNotFound)
    );
    assert_eq!(
        resolve_groups(&source, &active(&["gone"]), &vec![(REPO.to_string(), names(&["gone"]))]),
        Err(ResolveError::SourceMemberNotFound)
    );
}

#[test]
fn group_is_keyed_by_the_canonical_locator() {
    let source = source_workspace();
    assert_eq!(
        resolve_group(&source, &active(&["core"]), &REPO.to_string(), &names(&["core", "util"])),
        Ok(OverrideGroup {
            origin: "https://example.org/repo".to_string(),
            entries: vec![entry("core", "/src/core")],
        })
    );
    assert_eq!(
        resolve_group(&source, &active(&["gone"]), &"no locator".to_string(), &names(&["gone"])),
        Err(ResolveError::LocatorParseError(ParseError::RelativeUrlWithoutBase))
    );
}

#[test]
fn groups_resolve_in_order_up_to_the_first_failure() {
    let source = source_workspace();
    let set = active(&["core", "util", "gone"]);
    assert_eq!(
        resolve_groups(
            &source,
            &set,
            &vec![
                ("git+https://b.example.org/r".to_string(), names(&["util"])),
                ("git+https://a.example.org/r#f".to_string(), names(&["core", "util"])),
            ]
        ),
        Ok(vec![
            OverrideGroup {
                origin: "https://b.example.org/r".to_string(),
                entries: vec![entry("util", "/src/util")],
            },
            OverrideGroup {
                origin: "https://a.example.org/r".to_string(),
                entries: vec![entry("core", "/src/core"), entry("util", "/src/util")],
            },
        ])
    );
    assert_eq!(
        resolve_groups(
            &source,
            &set,
            &vec![
                (REPO.to_string(), names(&["core"])),
                ("https://".to_string(), names(&["core"])),
                (REPO.to_string(), names(&["gone"])),
            ]
        ),
        Err(ResolveError::LocatorParseError(ParseError::EmptyHost))
    );
    assert_eq!(
        resolve_groups(
            &source,
            &set,
            &vec![(REPO.to_string(), names(&["gone"])), ("https://".to_string(), names(&[]))]
        ),
        Err(ResolveError::SourceMemberNotFound)
    );
    assert_eq!(resolve_groups(&source, &set, &vec![]), Ok(vec![]));
}

#[test]
fn name_under_two_groups_is_a_conflict() {
    let group = |origin: &str, list: &[&str]| OverrideGroup {
        origin: origin.to_string(),
        entries: list.iter().map(|n| entry(n, "/d")).collect(),
    };
    assert!(!has_conflicting_override(&vec![]));
    assert!(!has_conflicting_override(&vec![group("a", &["core", "core"])]));
    assert!(!has_conflicting_override(&vec![group("a", &["core"]), group("b", &["util"])]));
    assert!(!has_conflicting_override(&vec![group("a", &[]), group("a", &[])]));
    assert!(has_conflicting_override(&vec![
        group("a", &["x", "core"]),
        group("b", &["util"]),
        group("c", &["y", "z", "core"]),
    ]));
    assert!(has_conflicting_override(&vec![group("a", &["core"]), group("a", &["core"])]));
}

#[test]
fn one_name_from_two_origins_is_emitted_twice() {
    let destination = graph(
        vec![
            package("app", "app", None, "/dst/app", &["core"]),
            package("core 1", "core", Some("git+https://example.org/repo?rev=1"), "/c/1", &[]),
            package("core 2", "core", Some("git+https://example.org/fork"), "/c/2", &[]),
        ],
        Some("app"),
        &["app"],
    );
    let groups = sorted(patch_overrides(&source_workspace(), &destination).unwrap());
    assert_eq!(groups.len(), 2);
    assert_eq!(groups[0].origin, "https://example.org/fork");
    assert_eq!(groups[1].origin, "https://example.org/repo");
    assert_eq!(groups[0].entries, vec![entry("core", "/src/core")]);
    assert_eq!(groups[1].entries, vec![entry("core", "/src/core")]);
    assert!(has_conflicting_override(&groups));
}

#[test]
fn origins_hold_no_query_and_no_fragment() {
    let destination = graph(
        vec![
            package("app", "app", None, "/dst/app", &["util", "core"]),
            package("util (git)", "util", Some("git+https://h/u?rev=1#a?b"), "/c/u", &[]),
            package("core (git)", "core", Some("git+https://h/c#frag#ment?x"), "/c/c", &[]),
        ],
        Some("app"),
        &["app"],
    );
    let groups = sorted(patch_overrides(&source_workspace(), &destination).unwrap());
    assert_eq!(groups.len(), 2);
    assert_eq!(groups[0].origin, "https://h/c");
    assert_eq!(groups[1].origin, "https://h/u");
    for group in &groups {
        assert!(!group.origin.contains('?') && !group.origin.contains('#'));
    }
}
