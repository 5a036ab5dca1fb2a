//! What holds of every resolution, stated over the mathematical values of
//! graphs and groups.

use crate::error::ResolveError;
use crate::graph::{GraphView, PackageView};
use crate::grouping::{is_grouping, names_with_key, pair_name, with_key, LocatorGroup, LocatorPair};
use crate::locator::{git_prefix, normalized_locator};
use crate::overrides::{EntryView, GroupView};
use crate::resolver::{
    entry_of, group_entries, is_active, is_overridable, lemma_pair_is_candidate,
    lemma_resolved_groups_pointwise, locator_pair, overridable_pairs, resolved_group,
    resolved_groups,
};
use crate::seq_lemmas::{
    after, both, lemma_filter_agree, lemma_filter_element, lemma_filter_filter, lemma_filter_map,
    lemma_filter_none, lemma_filter_single,
};
use url::ParseError;
use vstd::prelude::*;

verus! {

/// Every group of the candidates is keyed by the git locator of a
/// destination package that carries a member's name.
pub proof fn lemma_group_is_git_origin(
    destination: GraphView,
    members: Seq<Seq<char>>,
    groups: Seq<LocatorGroup>,
    i: int,
) -> (at: int)
    requires
        is_grouping(overridable_pairs(destination, members), groups),
        0 <= i < groups.len(),
    ensures
        0 <= at < destination.packages.len(),
        is_overridable(members)(destination.packages[at]),
        destination.packages[at].source == Some(groups[i].0),
        git_prefix().is_prefix_of(groups[i].0),
{
    let pairs = overridable_pairs(destination, members);
    let k = choose|k: int| 0 <= k < pairs.len() && (#[trigger] pairs[k]).0 == groups[i].0;
    lemma_pair_is_candidate(destination, members, k)
}

/// A destination package that comes from a plain registry locator, without
/// the git marker, produces no group: no group is keyed by its locator. Where
/// no destination package is a candidate there is no group at all.
pub proof fn lemma_plain_locator_gets_no_group(
    destination: GraphView,
    members: Seq<Seq<char>>,
    groups: Seq<LocatorGroup>,
    k: int,
)
    requires
        is_grouping(overridable_pairs(destination, members), groups),
        0 <= k < destination.packages.len(),
        destination.packages[k].source is Some,
        !git_prefix().is_prefix_of(destination.packages[k].source->Some_0),
    ensures
        forall|i: int|
            0 <= i < groups.len() ==> (#[trigger] groups[i]).0 != destination.packages[k].source->Some_0,
        (forall|j: int|
            0 <= j < destination.packages.len() ==> !is_overridable(members)(
                #[trigger] destination.packages[j],
            )) ==> groups.len() == 0,
{
    assert forall|i: int| 0 <= i < groups.len() implies (#[trigger] groups[i]).0
        != destination.packages[k].source->Some_0 by {
        lemma_group_is_git_origin(destination, members, groups, i);
    }
    if groups.len() > 0 {
        lemma_group_is_git_origin(destination, members, groups, 0);
    }
}

/// A name that is no active dependency has no entry in a resolved group,
/// though the group's names may hold it. The group itself stays, see
/// `lemma_resolved_groups_pointwise`, be it without entries.
pub proof fn lemma_inactive_name_has_no_entry(
    source: GraphView,
    active: Set<Seq<char>>,
    names: Seq<Seq<char>>,
    entries: Seq<EntryView>,
    name: Seq<char>,
)
    requires
        !active.contains(name),
        group_entries(source, active, names) == Ok::<Seq<EntryView>, ResolveError>(entries),
    ensures
        forall|i: int| 0 <= i < entries.len() ==> (#[trigger] entries[i]).name != name,
{
    let kept = names.filter(is_active(active));
    assert forall|i: int| 0 <= i < entries.len() implies (#[trigger] entries[i]).name != name by {
        names.lemma_filter_pred(is_active(active), i);
        assert(entries[i].name == kept[i]);
    }
}

/// Every entry of a resolved group is an active dependency that the group's
/// names hold, with the manifest directory of the first source package of
/// that name.
pub proof fn lemma_entries_are_active_names(
    source: GraphView,
    active: Set<Seq<char>>,
    names: Seq<Seq<char>>,
    entries: Seq<EntryView>,
    i: int,
)
    requires
        group_entries(source, active, names) == Ok::<Seq<EntryView>, ResolveError>(entries),
        0 <= i < entries.len(),
    ensures
        active.contains(entries[i].name),
        names.contains(entries[i].name),
        source.has_name(entries[i].name),
        entries[i].directory == source.first_named(entries[i].name).manifest_dir,
{
    let kept = names.filter(is_active(active));
    lemma_filter_element(names, is_active(active), i);
    assert(entries[i].name == kept[i]);
}

/// The test for an entry being that of `name`.
pub open spec fn entry_named(name: Seq<char>) -> spec_fn(EntryView) -> bool {
    |entry: EntryView| entry.name == name
}

/// The test for a name being `name`.
pub open spec fn name_is(name: Seq<char>) -> spec_fn(Seq<char>) -> bool {
    |other: Seq<char>| other == name
}

/// The test for a destination package contributing an entry named `name`
/// to the group of the raw locator `key`: it is a candidate, its locator is
/// `key`, and its name is active and is `name`.
spec fn contributes(
    members: Seq<Seq<char>>,
    active: Set<Seq<char>>,
    key: Seq<char>,
    name: Seq<char>,
) -> spec_fn(PackageView) -> bool {
    both(
        is_overridable(members),
        after(
            locator_pair(),
            both(with_key(key), after(pair_name(), both(is_active(active), name_is(name)))),
        ),
    )
}

/// The names of a group that are active and equal to `name` are those of
/// the destination packages that contribute them, in the order of the graph.
proof fn lemma_named_survivors(
    destination: GraphView,
    members: Seq<Seq<char>>,
    active: Set<Seq<char>>,
    key: Seq<char>,
    name: Seq<char>,
)
    ensures
        names_with_key(overridable_pairs(destination, members), key).filter(is_active(active)).filter(
            name_is(name),
        ) == destination.packages.filter(contributes(members, active, key, name)).map_values(
            locator_pair(),
        ).map_values(pair_name()),
{
    let packages = destination.packages;
    let candidates = packages.filter(is_overridable(members));
    let pairs = overridable_pairs(destination, members);
    let keyed = pairs.filter(with_key(key));
    let names = names_with_key(pairs, key);
    let q1 = both(is_active(active), name_is(name));
    let q2 = both(with_key(key), after(pair_name(), q1));
    let q3 = contributes(members, active, key, name);
    // names.filter(active).filter(name_is) == names.filter(q1)
    lemma_filter_filter(names, is_active(active), name_is(name));
    // names.filter(q1) == keyed.filter(after(pair_name, q1)).map(pair_name)
    lemma_filter_map(keyed, pair_name(), q1);
    // keyed.filter(..) == pairs.filter(q2)
    lemma_filter_filter(pairs, with_key(key), after(pair_name(), q1));
    // pairs.filter(q2) == candidates.filter(after(locator_pair, q2)).map(locator_pair)
    lemma_filter_map(candidates, locator_pair(), q2);
    // candidates.filter(..) == packages.filter(q3)
    lemma_filter_filter(packages, is_overridable(members), after(locator_pair(), q2));
}

/// A destination package that carries a member's name, comes from a git
/// locator and is an active dependency, in a destination graph where no
/// other package has its name, produces exactly one entry: the group of its
/// raw locator is keyed by the locator's canonical form and holds one entry
/// of that name, with the manifest directory of the source package of that
/// name; no other group holds an entry of that name.
pub proof fn lemma_active_git_member_has_one_entry(
    source: GraphView,
    destination: GraphView,
    members: Seq<Seq<char>>,
    active: Set<Seq<char>>,
    groups: Seq<LocatorGroup>,
    resolved: Seq<GroupView>,
    k: int,
) -> (g: int)
    requires
        is_grouping(overridable_pairs(destination, members), groups),
        resolved_groups(source, active, groups) == Ok::<Seq<GroupView>, ResolveError>(resolved),
        0 <= k < destination.packages.len(),
        is_overridable(members)(destination.packages[k]),
        active.contains(destination.packages[k].name),
        forall|i: int|
            0 <= i < destination.packages.len() && i != k ==> (#[trigger] destination.packages[i]).name
                != destination.packages[k].name,
    ensures
        0 <= g < groups.len() == resolved.len(),
        groups[g].0 == destination.packages[k].source->Some_0,
        normalized_locator(groups[g].0) == Ok::<Seq<char>, ParseError>(resolved[g].origin),
        resolved[g].entries.filter(entry_named(destination.packages[k].name)) == seq![
            EntryView {
                name: destination.packages[k].name,
                directory: source.first_named(destination.packages[k].name).manifest_dir,
            },
        ],
        forall|i: int|
            0 <= i < resolved.len() && i != g ==> (#[trigger] resolved[i]).entries.filter(
                entry_named(destination.packages[k].name),
            ) == Seq::<EntryView>::empty(),
{
    let packages = destination.packages;
    let name = packages[k].name;
    let key = packages[k].source->Some_0;
    let pairs = overridable_pairs(destination, members);
    lemma_resolved_groups_pointwise(source, active, groups, resolved);
    // The package's pair is among the candidates, so its locator keys a group.
    packages.lemma_filter_contains(is_overridable(members), k);
    let candidates = packages.filter(is_overridable(members));
    let c = choose|c: int| 0 <= c < candidates.len() && candidates[c] == packages[k];
    assert(pairs[c] == locator_pair()(packages[k]));
    let g = choose|g: int| 0 <= g < groups.len() && (#[trigger] groups[g]).0 == pairs[c].0;
    assert forall|i: int| 0 <= i < resolved.len() implies (#[trigger] resolved[i]).entries.filter(
        entry_named(name),
    ) == if i == g {
        seq![EntryView { name, directory: source.first_named(name).manifest_dir }]
    } else {
        Seq::<EntryView>::empty()
    } by {
        let group_key = groups[i].0;
        let names = groups[i].1;
        assert(resolved_group(source, active, groups[i]) == Ok::<GroupView, ResolveError>(resolved[i]));
        assert(names == names_with_key(pairs, group_key));
        let kept = names.filter(is_active(active));
        assert(resolved[i].entries == kept.map_values(entry_of(source)));
        let q = contributes(members, active, group_key, name);
        // Entries of that name are the entries of the kept names equal to it.
        lemma_filter_map(kept, entry_of(source), entry_named(name));
        lemma_filter_agree(kept, after(entry_of(source), entry_named(name)), name_is(name));
        lemma_named_survivors(destination, members, active, group_key, name);
        let contributors = packages.filter(q);
        assert(resolved[i].entries.filter(entry_named(name)) == contributors.map_values(
            locator_pair(),
        ).map_values(pair_name()).map_values(entry_of(source)));
        if i == g {
            assert(q(packages[k]));
            assert forall|j: int| 0 <= j < packages.len() && j != k implies !q(#[trigger] packages[j]) by {
                assert(packages[j].name != name);
            }
            lemma_filter_single(packages, q, k);
            assert(contributors.map_values(locator_pair()).map_values(pair_name()).map_values(
                entry_of(source),
            ) =~= seq![EntryView { name, directory: source.first_named(name).manifest_dir }]);
        } else {
            assert(group_key != key) by {
                if i < g {
                    assert(groups[i].0 != groups[g].0);
                } else {
                    assert(groups[g].0 != groups[i].0);
                }
            }
            assert forall|j: int| 0 <= j < packages.len() implies !q(#[trigger] packages[j]) by {
                if j != k {
                    assert(packages[j].name != name);
                }
            }
            lemma_filter_none(packages, q);
            assert(contributors.map_values(locator_pair()).map_values(pair_name()).map_values(
                entry_of(source),
            ) =~= Seq::<EntryView>::empty());
        }
    }
    assert(resolved[g].entries.filter(entry_named(name)) == seq![
        EntryView { name, directory: source.first_named(name).manifest_dir },
    ]);
    g
}

} // verus!
