//! Override groups: what a resolution produces.
//!
//! A group stands for one remote origin and holds, in discovery order, the
//! packages to redirect, each with its local manifest directory.

use vstd::prelude::*;

verus! {

/// A package to override and where it lies locally.
#[derive(Clone, Debug, PartialEq, Eq)]
pub struct OverrideEntry {
    pub name: String,
    /// Directory of the package's manifest in the source workspace.
    pub directory: String,
}

/// The mathematical value of an `OverrideEntry`.
pub struct EntryView {
    pub name: Seq<char>,
    pub directory: Seq<char>,
}

impl View for OverrideEntry {
    type V = EntryView;

    open spec fn view(&self) -> EntryView {
        EntryView { name: self.name@, directory: self.directory@ }
    }
}

impl DeepView for OverrideEntry {
    type V = EntryView;

    open spec fn deep_view(&self) -> EntryView {
        self@
    }
}

/// The overrides of one remote origin.
#[derive(Clone, Debug, PartialEq, Eq)]
pub struct OverrideGroup {
    /// Canonical key of the origin.
    pub origin: String,
    /// The overridden packages, in discovery order.
    pub entries: Vec<OverrideEntry>,
}

/// The mathematical value of an `OverrideGroup`.
pub struct GroupView {
    pub origin: Seq<char>,
    pub entries: Seq<EntryView>,
}

impl View for OverrideGroup {
    type V = GroupView;

    open spec fn view(&self) -> GroupView {
        GroupView { origin: self.origin@, entries: self.entries.deep_view() }
    }
}

impl DeepView for OverrideGroup {
    type V = GroupView;

    open spec fn deep_view(&self) -> GroupView {
        self@
    }
}

/// Whether the group holds an entry of this name.
pub open spec fn holds_name(group: GroupView, name: Seq<char>) -> bool {
    exists|a: int| 0 <= a < group.entries.len() && (#[trigger] group.entries[a]).name == name
}

/// Whether the two groups hold entries of one and the same name.
pub open spec fn share_name(first: GroupView, second: GroupView) -> bool {
    exists|a: int|
        0 <= a < first.entries.len() && holds_name(second, (#[trigger] first.entries[a]).name)
}

/// Whether some name is overridden in two distinct groups.
pub open spec fn names_conflict(groups: Seq<GroupView>) -> bool {
    exists|i: int, j: int|
        0 <= i < j < groups.len() && share_name(#[trigger] groups[i], #[trigger] groups[j])
}

fn group_holds_name(group: &OverrideGroup, name: &String) -> (r: bool)
    ensures
        r == holds_name(group@, name@),
{
    let mut a: usize = 0;
    while a < group.entries.len()
        invariant
            a <= group.entries.len(),
            forall|k: int| 0 <= k < a ==> (#[trigger] group@.entries[k]).name != name@,
        decreases group.entries.len() - a,
    {
        if group.entries[a].name == *name {
            assert(group@.entries[a as int].name == name@);
            return true;
        }
        a += 1;
    }
    false
}

fn groups_share_name(first: &OverrideGroup, second: &OverrideGroup) -> (r: bool)
    ensures
        r == share_name(first@, second@),
{
    let mut a: usize = 0;
    while a < first.entries.len()
        invariant
            a <= first.entries.len(),
            forall|k: int| 0 <= k < a ==> !holds_name(second@, (#[trigger] first@.entries[k]).name),
        decreases first.entries.len() - a,
    {
        if group_holds_name(second, &first.entries[a].name) {
            assert(holds_name(second@, first@.entries[a as int].name));
            return true;
        }
        a += 1;
    }
    false
}

/// Detects a name that is overridden under two distinct groups. The
/// resolver emits such groups as they are; a consumer of the directives may
/// refuse them.
pub fn has_conflicting_override(groups: &Vec<OverrideGroup>) -> (r: bool)
    ensures
        r == names_conflict(groups.deep_view()),
{
    let mut i: usize = 0;
    while i < groups.len()
        invariant
            i <= groups.len(),
            forall|x: int, y: int|
                0 <= x < i && x < y < groups.len() ==> !share_name(
                    #[trigger] groups.deep_view()[x],
                    #[trigger] groups.deep_view()[y],
                ),
        decreases groups.len() - i,
    {
        let mut j: usize = i + 1;
        while j < groups.len()
            invariant
                i < j <= groups.len(),
                forall|x: int, y: int|
                    0 <= x < i && x < y < groups.len() ==> !share_name(
                        #[trigger] groups.deep_view()[x],
                        #[trigger] groups.deep_view()[y],
                    ),
                forall|y: int|
                    i < y < j ==> !share_name(groups.deep_view()[i as int], #[trigger] groups.deep_view()[y]),
            decreases groups.len() - j,
        {
            if groups_share_name(&groups[i], &groups[j]) {
                assert(share_name(groups.deep_view()[i as int], groups.deep_view()[j as int]));
                return true;
            }
            j += 1;
        }
        i += 1;
    }
    false
}

} // verus!
