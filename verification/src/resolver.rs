//! The override resolver.
//!
//! Destination packages that carry the name of a source workspace member and
//! come from a git locator are grouped by that locator. Each group is keyed
//! by the locator's canonical form and keeps the names of the active
//! dependencies, each with the directory of the source package of that name.

use crate::active::{active_dependencies, active_names, members_resolve, root_resolves, ActiveSet};
use crate::error::ResolveError;
use crate::graph::{DependencyGraph, GraphView, PackageView};
use crate::grouping::{
    into_group_map, is_grouping, names_with_key, with_key, LocatorGroup, LocatorPair,
};
use crate::locator::{
    git_prefix, has_git_prefix, is_bare, normalized_locator, strip_components_from_url,
};
use crate::overrides::{EntryView, GroupView, OverrideEntry, OverrideGroup};
use crate::seq_lemmas::lemma_filter_element;
use vstd::prelude::*;

verus! {

/// The names of the workspace members, member by member.
pub open spec fn member_names(graph: GraphView) -> Seq<Seq<char>> {
    Seq::new(
        graph.workspace_members.len(),
        |i: int| graph.package(graph.workspace_members[i]).name,
    )
}

/// Collects the names of a graph's workspace members. Fails with
/// `MemberNotFound` exactly when a member is the identity of no package.
pub fn workspace_member_names(graph: &DependencyGraph) -> (r: Result<Vec<String>, ResolveError>)
    ensures
        match r {
            Ok(names) => members_resolve(graph@) && names.deep_view() == member_names(graph@),
            Err(e) => !members_resolve(graph@) && e == ResolveError::MemberNotFound,
        },
{
    let members = graph.workspace_members();
    let mut names: Vec<String> = Vec::new();
    let mut i: usize = 0;
    while i < members.len()
        invariant
            i <= members.len(),
            members.deep_view() == graph@.workspace_members,
            names.len() == i,
            forall|j: int| 0 <= j < i ==> graph@.has_id(#[trigger] graph@.workspace_members[j]),
            forall|j: int| 0 <= j < i ==> (#[trigger] names[j])@ == member_names(graph@)[j],
        decreases members.len() - i,
    {
        assert(members[i as int]@ == graph@.workspace_members[i as int]);
        match graph.package(&members[i]) {
            Some(package) => {
                names.push(package.name.clone());
            },
            None => {
                return Err(ResolveError::MemberNotFound);
            },
        }
        i += 1;
    }
    assert(names.deep_view() =~= member_names(graph@));
    Ok(names)
}

/// Whether `name` is one of `names`.
pub fn contains_name(names: &Vec<String>, name: &String) -> (r: bool)
    ensures
        r == names.deep_view().contains(name@),
{
    let mut i: usize = 0;
    while i < names.len()
        invariant
            i <= names.len(),
            forall|j: int| 0 <= j < i ==> names.deep_view()[j] != name@,
        decreases names.len() - i,
    {
        if names[i] == *name {
            assert(names.deep_view()[i as int] == name@);
            return true;
        }
        i += 1;
    }
    false
}

/// The test for a destination package being a candidate for an override: it
/// carries the name of a member and comes from a git locator.
pub open spec fn is_overridable(members: Seq<Seq<char>>) -> spec_fn(PackageView) -> bool {
    |p: PackageView|
        members.contains(p.name) && p.source is Some && git_prefix().is_prefix_of(p.source->Some_0)
}

/// The raw locator and the name of a package that has a locator.
pub open spec fn locator_pair() -> spec_fn(PackageView) -> LocatorPair {
    |p: PackageView| (p.source->Some_0, p.name)
}

/// Locator and name of every candidate, in the order of the graph.
pub open spec fn overridable_pairs(destination: GraphView, members: Seq<Seq<char>>) -> Seq<
    LocatorPair,
> {
    destination.packages.filter(is_overridable(members)).map_values(locator_pair())
}

/// Selects the destination packages that are candidates for an override and
/// hands out the raw locator and the name of each.
pub fn select_overridable(destination: &DependencyGraph, members: &Vec<String>) -> (pairs: Vec<
    (String, String),
>)
    ensures
        pairs.deep_view() == overridable_pairs(destination@, members.deep_view()),
{
    let packages = destination.packages();
    let mut pairs: Vec<(String, String)> = Vec::new();
    let mut i: usize = 0;
    assert(packages.deep_view().take(0) =~= Seq::<PackageView>::empty());
    assert(pairs.deep_view() =~= Seq::<LocatorPair>::empty());
    while i < packages.len()
        invariant
            i <= packages.len(),
            packages.deep_view() == destination@.packages,
            pairs.deep_view() == packages.deep_view().take(i as int).filter(
                is_overridable(members.deep_view()),
            ).map_values(locator_pair()),
        decreases packages.len() - i,
    {
        let package = &packages[i];
        let ghost before = packages.deep_view().take(i as int);
        let ghost kept = before.filter(is_overridable(members.deep_view()));
        let ghost old_pairs = pairs.deep_view();
        proof {
            assert(packages.deep_view().take(i + 1) =~= before.push(package@));
            before.lemma_filter_push(package@, is_overridable(members.deep_view()));
        }
        let mut selected = false;
        if contains_name(members, &package.name) {
            match &package.source {
                Some(locator) => {
                    if has_git_prefix(locator.as_str()) {
                        pairs.push((locator.clone(), package.name.clone()));
                        selected = true;
                    }
                },
                None => {},
            }
        }
        proof {
            if selected {
                assert(pairs.deep_view() =~= old_pairs.push(locator_pair()(package@)));
                kept.lemma_push_map_commute(locator_pair(), package@);
            }
        }
        i += 1;
    }
    assert(packages.deep_view().take(i as int) =~= packages.deep_view());
    pairs
}

/// The test for a name being an active dependency.
pub open spec fn is_active(active: Set<Seq<char>>) -> spec_fn(Seq<char>) -> bool {
    |name: Seq<char>| active.contains(name)
}

/// The entry of a name: the name with the manifest directory of the first
/// source package of that name.
pub open spec fn entry_of(source: GraphView) -> spec_fn(Seq<char>) -> EntryView {
    |name: Seq<char>| EntryView { name, directory: source.first_named(name).manifest_dir }
}

/// Every name of the list is the name of a package of the graph.
pub open spec fn all_named(graph: GraphView, names: Seq<Seq<char>>) -> bool {
    forall|i: int| 0 <= i < names.len() ==> graph.has_name(#[trigger] names[i])
}

/// The entries of a group: one for each of its names that is an active
/// dependency, in order. `SourceMemberNotFound` where the source graph has
/// no package of such a name.
pub open spec fn group_entries(
    source: GraphView,
    active: Set<Seq<char>>,
    names: Seq<Seq<char>>,
) -> Result<Seq<EntryView>, ResolveError> {
    let kept = names.filter(is_active(active));
    if all_named(source, kept) {
        Ok(kept.map_values(entry_of(source)))
    } else {
        Err(ResolveError::SourceMemberNotFound)
    }
}

/// Drops the names that are no active dependency and looks each of the
/// others up in the source graph.
pub fn resolve_names(source: &DependencyGraph, active: &ActiveSet, names: &Vec<String>) -> (r:
    Result<Vec<OverrideEntry>, ResolveError>)
    ensures
        match r {
            Ok(entries) => group_entries(source@, active@, names.deep_view()) == Ok::<
                Seq<EntryView>,
                ResolveError,
            >(entries.deep_view()),
            Err(e) => group_entries(source@, active@, names.deep_view()) == Err::<
                Seq<EntryView>,
                ResolveError,
            >(e),
        },
{
    let mut entries: Vec<OverrideEntry> = Vec::new();
    let mut i: usize = 0;
    assert(names.deep_view().take(0) =~= Seq::<Seq<char>>::empty());
    assert(entries.deep_view() =~= Seq::<EntryView>::empty());
    while i < names.len()
        invariant
            i <= names.len(),
            all_named(source@, names.deep_view().take(i as int).filter(is_active(active@))),
            entries.deep_view() == names.deep_view().take(i as int).filter(
                is_active(active@),
            ).map_values(entry_of(source@)),
        decreases names.len() - i,
    {
        let name = &names[i];
        let ghost before = names.deep_view().take(i as int);
        let ghost kept = before.filter(is_active(active@));
        let ghost old_entries = entries.deep_view();
        proof {
            assert(names.deep_view().take(i + 1) =~= before.push(name@));
            before.lemma_filter_push(name@, is_active(active@));
        }
        if active.contains(name) {
            match source.package_named(name) {
                Some(package) => {
                    entries.push(
                        OverrideEntry {
                            name: package.name.clone(),
                            directory: package.manifest_dir.clone(),
                        },
                    );
                    proof {
                        assert(entries.deep_view() =~= old_entries.push(entry_of(source@)(name@)));
                        kept.lemma_push_map_commute(entry_of(source@), name@);
                    }
                },
                None => {
                    proof {
                        let all = names.deep_view().filter(is_active(active@));
                        names.deep_view().lemma_filter_contains(is_active(active@), i as int);
                        let at = choose|at: int| 0 <= at < all.len() && all[at] == name@;
                        assert(!source@.has_name(all[at]));
                    }
                    return Err(ResolveError::SourceMemberNotFound);
                },
            }
        }
        i += 1;
    }
    assert(names.deep_view().take(i as int) =~= names.deep_view());
    Ok(entries)
}

/// What a group of raw locator and names resolves to: the group keyed by the
/// locator's canonical form, or the first failure, the locator's before
/// that of the names.
pub open spec fn resolved_group(
    source: GraphView,
    active: Set<Seq<char>>,
    group: LocatorGroup,
) -> Result<GroupView, ResolveError> {
    match normalized_locator(group.0) {
        Err(e) => Err(ResolveError::LocatorParseError(e)),
        Ok(origin) => match group_entries(source, active, group.1) {
            Ok(entries) => Ok(GroupView { origin, entries }),
            Err(e) => Err(e),
        },
    }
}

/// Resolves one group: normalizes its locator and resolves its names. A
/// group with no active name resolves to a group without entries.
pub fn resolve_group(
    source: &DependencyGraph,
    active: &ActiveSet,
    locator: &String,
    names: &Vec<String>,
) -> (r: Result<OverrideGroup, ResolveError>)
    ensures
        match r {
            Ok(group) => resolved_group(source@, active@, (locator@, names.deep_view())) == Ok::<
                GroupView,
                ResolveError,
            >(group@) && is_bare(group@.origin),
            Err(e) => resolved_group(source@, active@, (locator@, names.deep_view())) == Err::<
                GroupView,
                ResolveError,
            >(e),
        },
{
    let origin = match strip_components_from_url(locator.as_str()) {
        Ok(origin) => origin,
        Err(e) => {
            return Err(ResolveError::LocatorParseError(e));
        },
    };
    match resolve_names(source, active, names) {
        Ok(entries) => Ok(OverrideGroup { origin, entries }),
        Err(e) => Err(e),
    }
}

/// What a list of groups resolves to: the resolved groups in the same
/// order, or the failure of the first group that fails.
pub open spec fn resolved_groups(
    source: GraphView,
    active: Set<Seq<char>>,
    groups: Seq<LocatorGroup>,
) -> Result<Seq<GroupView>, ResolveError>
    decreases groups.len(),
{
    if groups.len() == 0 {
        Ok(Seq::empty())
    } else {
        match resolved_groups(source, active, groups.drop_last()) {
            Err(e) => Err(e),
            Ok(done) => match resolved_group(source, active, groups.last()) {
                Ok(group) => Ok(done.push(group)),
                Err(e) => Err(e),
            },
        }
    }
}

/// The origin of every group holds neither `?` nor `#`.
pub open spec fn bare_origins(groups: Seq<GroupView>) -> bool {
    forall|i: int| 0 <= i < groups.len() ==> is_bare((#[trigger] groups[i]).origin)
}

/// Resolves the groups one after the other and stops at the first failure.
/// No origin of a resolved group holds a query or a fragment.
pub fn resolve_groups(
    source: &DependencyGraph,
    active: &ActiveSet,
    groups: &Vec<(String, Vec<String>)>,
) -> (r: Result<Vec<OverrideGroup>, ResolveError>)
    ensures
        match r {
            Ok(resolved) => resolved_groups(source@, active@, groups.deep_view()) == Ok::<
                Seq<GroupView>,
                ResolveError,
            >(resolved.deep_view()) && bare_origins(resolved.deep_view()),
            Err(e) => resolved_groups(source@, active@, groups.deep_view()) == Err::<
                Seq<GroupView>,
                ResolveError,
            >(e),
        },
{
    let mut resolved: Vec<OverrideGroup> = Vec::new();
    let mut i: usize = 0;
    assert(groups.deep_view().take(0) =~= Seq::<LocatorGroup>::empty());
    assert(resolved.deep_view() =~= Seq::<GroupView>::empty());
    while i < groups.len()
        invariant
            i <= groups.len(),
            resolved_groups(source@, active@, groups.deep_view().take(i as int)) == Ok::<
                Seq<GroupView>,
                ResolveError,
            >(resolved.deep_view()),
            bare_origins(resolved.deep_view()),
        decreases groups.len() - i,
    {
        let ghost old_resolved = resolved.deep_view();
        proof {
            let next = groups.deep_view().take(i + 1);
            assert(next.drop_last() =~= groups.deep_view().take(i as int));
            assert(next.last() == (groups[i as int].0@, groups[i as int].1.deep_view()));
        }
        match resolve_group(source, active, &groups[i].0, &groups[i].1) {
            Ok(group) => {
                resolved.push(group);
                assert(resolved.deep_view() =~= old_resolved.push(group@));
            },
            Err(e) => {
                proof {
                    lemma_failure_stays(source@, active@, groups.deep_view(), i + 1);
                }
                return Err(e);
            },
        }
        i += 1;
    }
    assert(groups.deep_view().take(i as int) =~= groups.deep_view());
    Ok(resolved)
}

/// A failure among the first `n` groups is the failure of the whole list.
pub proof fn lemma_failure_stays(
    source: GraphView,
    active: Set<Seq<char>>,
    groups: Seq<LocatorGroup>,
    n: int,
)
    requires
        0 <= n <= groups.len(),
        resolved_groups(source, active, groups.take(n)) is Err,
    ensures
        resolved_groups(source, active, groups) == resolved_groups(source, active, groups.take(n)),
    decreases groups.len() - n,
{
    if n < groups.len() {
        assert(groups.take(n + 1).drop_last() =~= groups.take(n));
        lemma_failure_stays(source, active, groups, n + 1);
    } else {
        assert(groups.take(n) =~= groups);
    }
}

/// The outcome of a resolution in mathematical values.
pub open spec fn outcome_view(r: Result<Vec<OverrideGroup>, ResolveError>) -> Result<
    Seq<GroupView>,
    ResolveError,
> {
    match r {
        Ok(groups) => Ok(groups.deep_view()),
        Err(e) => Err(e),
    }
}

/// `outcome` is an outcome of resolving `destination` against `source`:
/// `MemberNotFound` where a source member does not resolve; else what some
/// grouping of the candidates by raw locator resolves to. The groupings
/// differ in the order of the groups alone.
pub open spec fn is_resolution(
    source: GraphView,
    destination: GraphView,
    active: Set<Seq<char>>,
    outcome: Result<Seq<GroupView>, ResolveError>,
) -> bool {
    if members_resolve(source) {
        exists|groups: Seq<LocatorGroup>|
            #[trigger] is_grouping(overridable_pairs(destination, member_names(source)), groups)
                && outcome == resolved_groups(source, active, groups)
    } else {
        outcome == Err::<Seq<GroupView>, ResolveError>(ResolveError::MemberNotFound)
    }
}

/// Resolves the overrides of `destination` against `source`, given the
/// active-dependency set. The groups come in no stated order; each holds its
/// entries in the order of the destination's packages. The lookup of a
/// surviving name in the source graph cannot fail here, so the only failures
/// are `MemberNotFound` and `LocatorParseError`.
pub fn resolve_overrides(
    source: &DependencyGraph,
    destination: &DependencyGraph,
    active: &ActiveSet,
) -> (r: Result<Vec<OverrideGroup>, ResolveError>)
    ensures
        is_resolution(source@, destination@, active@, outcome_view(r)),
        r matches Ok(resolved) ==> bare_origins(resolved.deep_view()),
        r is Ok <==> members_resolve(source@) && locators_normalize(
            overridable_pairs(destination@, member_names(source@)),
        ),
        r matches Err(e) ==> if members_resolve(source@) {
            is_locator_failure(overridable_pairs(destination@, member_names(source@)), e)
        } else {
            e == ResolveError::MemberNotFound
        },
{
    let members = match workspace_member_names(source) {
        Ok(members) => members,
        Err(e) => {
            return Err(e);
        },
    };
    let pairs = select_overridable(destination, &members);
    let groups = into_group_map(pairs);
    proof {
        lemma_resolution_succeeds(source@, destination@, active@, groups.deep_view());
    }
    resolve_groups(source, active, &groups)
}

/// `outcome` is an outcome of the whole reconciliation: `MissingRoot` where
/// the destination's root does not resolve, else `MemberNotFound` where one
/// of its members does not, else an outcome of the resolution under the
/// destination's active-dependency set.
pub open spec fn is_patch_outcome(
    source: GraphView,
    destination: GraphView,
    outcome: Result<Seq<GroupView>, ResolveError>,
) -> bool {
    if !root_resolves(destination) {
        outcome == Err::<Seq<GroupView>, ResolveError>(ResolveError::MissingRoot)
    } else if !members_resolve(destination) {
        outcome == Err::<Seq<GroupView>, ResolveError>(ResolveError::MemberNotFound)
    } else {
        is_resolution(source, destination, active_names(destination), outcome)
    }
}

/// Reconciles the two graphs: computes the destination's active-dependency
/// set and resolves the overrides under it.
pub fn patch_overrides(source: &DependencyGraph, destination: &DependencyGraph) -> (r: Result<
    Vec<OverrideGroup>,
    ResolveError,
>)
    ensures
        is_patch_outcome(source@, destination@, outcome_view(r)),
        r matches Ok(resolved) ==> bare_origins(resolved.deep_view()),
        r is Ok <==> root_resolves(destination@) && members_resolve(destination@) && members_resolve(
            source@,
        ) && locators_normalize(overridable_pairs(destination@, member_names(source@))),
        r matches Err(e) ==> e != ResolveError::SourceMemberNotFound,
{
    let active = match active_dependencies(destination) {
        Ok(active) => active,
        Err(e) => {
            return Err(e);
        },
    };
    resolve_overrides(source, destination, &active)
}

/// The name of every resolving workspace member is the name of a package.
pub proof fn lemma_members_are_named(graph: GraphView)
    requires
        members_resolve(graph),
    ensures
        all_named(graph, member_names(graph)),
{
    assert forall|i: int| 0 <= i < member_names(graph).len() implies graph.has_name(
        #[trigger] member_names(graph)[i],
    ) by {
        let id = graph.workspace_members[i];
        assert(graph.has_id(id));
        let at = choose|at: int| 0 <= at < graph.packages.len() && (#[trigger] graph.packages[at]).id == id;
        assert(graph.packages[at].name == member_names(graph)[i]);
    }
}

/// Every pair of the candidates stems from a destination package that is a
/// candidate: its name is a member's, its locator a git locator.
pub proof fn lemma_pair_is_candidate(destination: GraphView, members: Seq<Seq<char>>, k: int) -> (at:
    int)
    requires
        0 <= k < overridable_pairs(destination, members).len(),
    ensures
        0 <= at < destination.packages.len(),
        is_overridable(members)(destination.packages[at]),
        overridable_pairs(destination, members)[k] == locator_pair()(destination.packages[at]),
{
    lemma_filter_element(destination.packages, is_overridable(members), k)
}

/// Every name of a group of a grouping is the name of a pair with the
/// group's locator.
pub proof fn lemma_group_name_is_paired(
    pairs: Seq<LocatorPair>,
    groups: Seq<LocatorGroup>,
    i: int,
    j: int,
) -> (k: int)
    requires
        is_grouping(pairs, groups),
        0 <= i < groups.len(),
        0 <= j < groups[i].1.len(),
    ensures
        0 <= k < pairs.len(),
        pairs[k] == (groups[i].0, groups[i].1[j]),
{
    assert(groups[i].1 == names_with_key(pairs, groups[i].0));
    lemma_filter_element(pairs, with_key(groups[i].0), j)
}

/// Where every name of every group is the name of a source package, the
/// only failure of a resolution is that of a locator.
pub proof fn lemma_named_groups_resolve(
    source: GraphView,
    active: Set<Seq<char>>,
    groups: Seq<LocatorGroup>,
)
    requires
        forall|i: int| 0 <= i < groups.len() ==> all_named(source, (#[trigger] groups[i]).1),
    ensures
        resolved_groups(source, active, groups) matches Err(e) ==> e is LocatorParseError,
    decreases groups.len(),
{
    if groups.len() > 0 {
        let rest = groups.drop_last();
        assert forall|i: int| 0 <= i < rest.len() implies all_named(source, (#[trigger] rest[i]).1) by {
            assert(rest[i] == groups[i]);
        }
        lemma_named_groups_resolve(source, active, rest);
        let names = groups.last().1;
        assert(groups.last() == groups[groups.len() - 1]);
        let kept = names.filter(is_active(active));
        assert forall|j: int| 0 <= j < kept.len() implies source.has_name(#[trigger] kept[j]) by {
            let k = lemma_filter_element(names, is_active(active), j);
            assert(source.has_name(names[k]));
        }
    }
}

/// The candidates of a destination against a source whose members resolve
/// never fail for want of a source package.
pub proof fn lemma_candidates_resolve(
    source: GraphView,
    destination: GraphView,
    active: Set<Seq<char>>,
    groups: Seq<LocatorGroup>,
)
    requires
        members_resolve(source),
        is_grouping(overridable_pairs(destination, member_names(source)), groups),
    ensures
        resolved_groups(source, active, groups) matches Err(e) ==> e is LocatorParseError,
{
    let members = member_names(source);
    let pairs = overridable_pairs(destination, members);
    lemma_members_are_named(source);
    assert forall|i: int| 0 <= i < groups.len() implies all_named(source, (#[trigger] groups[i]).1) by {
        assert forall|j: int| 0 <= j < groups[i].1.len() implies source.has_name(
            #[trigger] groups[i].1[j],
        ) by {
            let k = lemma_group_name_is_paired(pairs, groups, i, j);
            let at = lemma_pair_is_candidate(destination, members, k);
            let name = destination.packages[at].name;
            assert(members.contains(name));
            let m = choose|m: int| 0 <= m < members.len() && members[m] == name;
            assert(source.has_name(members[m]));
        }
    }
    lemma_named_groups_resolve(source, active, groups);
}

/// A list of groups that resolves does so group by group: there are as many
/// resolved groups as groups, and each is what its group resolves to. A
/// group without active names is among them, with no entries.
pub proof fn lemma_resolved_groups_pointwise(
    source: GraphView,
    active: Set<Seq<char>>,
    groups: Seq<LocatorGroup>,
    resolved: Seq<GroupView>,
)
    requires
        resolved_groups(source, active, groups) == Ok::<Seq<GroupView>, ResolveError>(resolved),
    ensures
        resolved.len() == groups.len(),
        forall|i: int|
            0 <= i < groups.len() ==> resolved_group(source, active, #[trigger] groups[i]) == Ok::<
                GroupView,
                ResolveError,
            >(resolved[i]),
    decreases groups.len(),
{
    if groups.len() > 0 {
        let rest = groups.drop_last();
        let done = resolved_groups(source, active, rest)->Ok_0;
        lemma_resolved_groups_pointwise(source, active, rest, done);
        assert forall|i: int| 0 <= i < groups.len() implies resolved_group(
            source,
            active,
            #[trigger] groups[i],
        ) == Ok::<GroupView, ResolveError>(resolved[i]) by {
            if i < rest.len() {
                assert(rest[i] == groups[i]);
            }
        }
    }
}

/// A list of groups that fails does so with the failure of its first group
/// that fails.
pub proof fn lemma_resolved_groups_first_failure(
    source: GraphView,
    active: Set<Seq<char>>,
    groups: Seq<LocatorGroup>,
    e: ResolveError,
) -> (at: int)
    requires
        resolved_groups(source, active, groups) == Err::<Seq<GroupView>, ResolveError>(e),
    ensures
        0 <= at < groups.len(),
        resolved_group(source, active, groups[at]) == Err::<GroupView, ResolveError>(e),
        forall|i: int| 0 <= i < at ==> resolved_group(source, active, #[trigger] groups[i]) is Ok,
    decreases groups.len(),
{
    let rest = groups.drop_last();
    match resolved_groups(source, active, rest) {
        Err(_) => {
            let at = lemma_resolved_groups_first_failure(source, active, rest, e);
            assert forall|i: int| 0 <= i <= at implies rest[i] == groups[i] by {}
            at
        },
        Ok(done) => {
            lemma_resolved_groups_pointwise(source, active, rest, done);
            assert forall|i: int| 0 <= i < rest.len() implies resolved_group(
                source,
                active,
                #[trigger] groups[i],
            ) is Ok by {
                assert(rest[i] == groups[i]);
            }
            groups.len() - 1
        },
    }
}

/// The locator of every pair has a canonical form.
pub open spec fn locators_normalize(pairs: Seq<LocatorPair>) -> bool {
    forall|k: int| 0 <= k < pairs.len() ==> normalized_locator((#[trigger] pairs[k]).0) is Ok
}

/// Against a source whose members resolve, the candidates resolve exactly
/// when the locator of each of them has a canonical form, whatever the order
/// of the groups; a failure is the parse error of one of those locators.
pub proof fn lemma_resolution_succeeds(
    source: GraphView,
    destination: GraphView,
    active: Set<Seq<char>>,
    groups: Seq<LocatorGroup>,
)
    requires
        members_resolve(source),
        is_grouping(overridable_pairs(destination, member_names(source)), groups),
    ensures
        resolved_groups(source, active, groups) is Ok <==> locators_normalize(
            overridable_pairs(destination, member_names(source)),
        ),
        resolved_groups(source, active, groups) matches Err(e) ==> is_locator_failure(
            overridable_pairs(destination, member_names(source)),
            e,
        ),
{
    let pairs = overridable_pairs(destination, member_names(source));
    lemma_candidates_resolve(source, destination, active, groups);
    match resolved_groups(source, active, groups) {
        Ok(resolved) => {
            lemma_resolved_groups_pointwise(source, active, groups, resolved);
            assert forall|k: int| 0 <= k < pairs.len() implies normalized_locator(
                (#[trigger] pairs[k]).0,
            ) is Ok by {
                let i = choose|i: int|
                    0 <= i < groups.len() && (#[trigger] groups[i]).0 == (#[trigger] pairs[k]).0;
                assert(resolved_group(source, active, groups[i]) is Ok);
            }
        },
        Err(e) => {
            let at = lemma_resolved_groups_first_failure(source, active, groups, e);
            let k = choose|k: int| 0 <= k < pairs.len() && (#[trigger] pairs[k]).0 == groups[at].0;
            assert(normalized_locator(pairs[k].0) is Err);
        },
    }
}

/// `e` is the parse error of the locator of one of the pairs.
pub open spec fn is_locator_failure(pairs: Seq<LocatorPair>, e: ResolveError) -> bool {
    exists|k: int|
        0 <= k < pairs.len() && normalized_locator((#[trigger] pairs[k]).0) is Err
            && e == ResolveError::LocatorParseError(normalized_locator(pairs[k].0)->Err_0)
}

} // verus!
