//! Grouping of (locator, name) pairs by locator.
//!
//! The grouping itself is `itertools`' `into_group_map`. It hands the groups
//! out in the order of a hash map, which no contract can fix; what holds of
//! every order is `is_grouping`.

use itertools::Itertools;
use vstd::prelude::*;

verus! {

/// A raw locator with the name of a package that comes from it.
pub type LocatorPair = (Seq<char>, Seq<char>);

/// A raw locator with the names of the packages that come from it.
pub type LocatorGroup = (Seq<char>, Seq<Seq<char>>);

/// Whether some pair has this locator.
pub open spec fn has_key(pairs: Seq<LocatorPair>, key: Seq<char>) -> bool {
    exists|k: int| 0 <= k < pairs.len() && (#[trigger] pairs[k]).0 == key
}

/// The test for a pair's locator being `key`.
pub open spec fn with_key(key: Seq<char>) -> spec_fn(LocatorPair) -> bool {
    |p: LocatorPair| p.0 == key
}

/// The name of a pair.
pub open spec fn pair_name() -> spec_fn(LocatorPair) -> Seq<char> {
    |p: LocatorPair| p.1
}

/// The names paired with `key`, in the order of `pairs`.
pub open spec fn names_with_key(pairs: Seq<LocatorPair>, key: Seq<char>) -> Seq<Seq<char>> {
    pairs.filter(with_key(key)).map_values(pair_name())
}

/// `groups` is `pairs` grouped by locator: one group for each locator that
/// occurs, no locator twice, and in each group the names paired with its
/// locator, in the order of `pairs`.
pub open spec fn is_grouping(pairs: Seq<LocatorPair>, groups: Seq<LocatorGroup>) -> bool {
    &&& forall|i: int, j: int|
        0 <= i < j < groups.len() ==> (#[trigger] groups[i]).0 != (#[trigger] groups[j]).0
    &&& forall|i: int|
        0 <= i < groups.len() ==> has_key(pairs, (#[trigger] groups[i]).0) && groups[i].1
            == names_with_key(pairs, groups[i].0)
    &&& forall|k: int|
        0 <= k < pairs.len() ==> exists|i: int|
            0 <= i < groups.len() && (#[trigger] groups[i]).0 == (#[trigger] pairs[k]).0
}

/// `Itertools::into_group_map` on the pairs, its map handed out as a list.
/// The map has one entry for each key that occurs, and an entry's values are
/// those paired with its key, in the order in which they came. The order of
/// the entries is the hash map's and is not stated.
#[verifier::external_body]
pub(crate) fn into_group_map(pairs: Vec<(String, String)>) -> (groups: Vec<(String, Vec<String>)>)
    ensures
        is_grouping(pairs.deep_view(), groups.deep_view()),
{
    pairs.into_iter().into_group_map().into_iter().collect()
}

/// Two pairs with the same locator fall into one and the same group, which
/// holds both names.
pub proof fn lemma_same_locator_same_group(
    pairs: Seq<LocatorPair>,
    groups: Seq<LocatorGroup>,
    a: int,
    b: int,
)
    requires
        is_grouping(pairs, groups),
        0 <= a < pairs.len(),
        0 <= b < pairs.len(),
        pairs[a].0 == pairs[b].0,
    ensures
        exists|i: int|
            0 <= i < groups.len() && (#[trigger] groups[i]).0 == pairs[a].0
                && groups[i].1.contains(pairs[a].1) && groups[i].1.contains(pairs[b].1)
                && forall|j: int|
                0 <= j < groups.len() && (#[trigger] groups[j]).0 == pairs[a].0 ==> j == i,
{
    let i = choose|i: int| 0 <= i < groups.len() && (#[trigger] groups[i]).0 == pairs[a].0;
    lemma_names_with_key_contains(pairs, a);
    lemma_names_with_key_contains(pairs, b);
    assert forall|j: int| 0 <= j < groups.len() && (#[trigger] groups[j]).0 == pairs[a].0 implies j
        == i by {
        if j < i {
            assert(groups[j].0 != groups[i].0);
        } else if i < j {
            assert(groups[i].0 != groups[j].0);
        }
    }
}

/// The name of a pair is among the names paired with the pair's locator.
pub proof fn lemma_names_with_key_contains(pairs: Seq<LocatorPair>, k: int)
    requires
        0 <= k < pairs.len(),
    ensures
        names_with_key(pairs, pairs[k].0).contains(pairs[k].1),
{
    let kept = pairs.filter(with_key(pairs[k].0));
    pairs.lemma_filter_contains(with_key(pairs[k].0), k);
    let at = choose|at: int| 0 <= at < kept.len() && kept[at] == pairs[k];
    assert(kept.map_values(pair_name())[at] == pairs[k].1);
}

} // verus!
