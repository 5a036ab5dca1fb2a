//! The active-dependency set of a graph: the names that its root or one of
//! its workspace members depends on directly.

use crate::error::ResolveError;
use crate::graph::{DependencyGraph, GraphView, Package};
use vstd::prelude::*;

verus! {

/// A set of package names. Every name is held once.
pub struct ActiveSet {
    names: Vec<String>,
}

impl View for ActiveSet {
    type V = Set<Seq<char>>;

    closed spec fn view(&self) -> Set<Seq<char>> {
        self.names.deep_view().to_set()
    }
}

impl ActiveSet {
    /// No name is held twice.
    pub closed spec fn well_formed(&self) -> bool {
        self.names.deep_view().no_duplicates()
    }

    /// The empty set.
    pub fn new() -> (r: ActiveSet)
        ensures
            r.well_formed(),
            r@ == Set::<Seq<char>>::empty(),
    {
        let r = ActiveSet { names: Vec::new() };
        assert(r.names.deep_view().to_set() =~= Set::<Seq<char>>::empty());
        r
    }

    /// Whether `name` is in the set.
    pub fn contains(&self, name: &String) -> (r: bool)
        ensures
            r == self@.contains(name@),
    {
        let mut i: usize = 0;
        while i < self.names.len()
            invariant
                i <= self.names.len(),
                forall|j: int| 0 <= j < i ==> self.names.deep_view()[j] != name@,
            decreases self.names.len() - i,
        {
            if self.names[i] == *name {
                assert(self.names.deep_view()[i as int] == name@);
                return true;
            }
            i += 1;
        }
        false
    }

    /// Adds `name`, unless the set holds it already.
    pub fn insert(&mut self, name: String)
        requires
            old(self).well_formed(),
        ensures
            final(self).well_formed(),
            final(self)@ == old(self)@.insert(name@),
    {
        if !self.contains(&name) {
            let ghost before = self.names.deep_view();
            self.names.push(name);
            assert(self.names.deep_view() =~= before.push(name@));
            proof {
                before.lemma_push_to_set_commute(name@);
            }
        } else {
            assert(self@.insert(name@) =~= self@);
        }
    }

    /// The number of names in the set.
    pub fn len(&self) -> (r: usize)
        requires
            self.well_formed(),
        ensures
            r == self@.len(),
    {
        proof {
            self.names.deep_view().unique_seq_to_set();
        }
        self.names.len()
    }

    /// The set of the names in `names`.
    pub fn from_names(names: &Vec<String>) -> (r: ActiveSet)
        ensures
            r.well_formed(),
            r@ == names.deep_view().to_set(),
    {
        let mut set = ActiveSet::new();
        set.insert_all(names);
        assert(Set::<Seq<char>>::empty().union(names.deep_view().to_set()) =~= names.deep_view().to_set());
        set
    }

    /// Adds every name of `names`.
    pub fn insert_all(&mut self, names: &Vec<String>)
        requires
            old(self).well_formed(),
        ensures
            final(self).well_formed(),
            final(self)@ == old(self)@.union(names.deep_view().to_set()),
    {
        let mut i: usize = 0;
        assert(names.deep_view().take(0).to_set() =~= Set::<Seq<char>>::empty());
        assert(self@.union(Set::<Seq<char>>::empty()) =~= self@);
        while i < names.len()
            invariant
                i <= names.len(),
                self.well_formed(),
                self@ == old(self)@.union(names.deep_view().take(i as int).to_set()),
            decreases names.len() - i,
        {
            let ghost before = names.deep_view().take(i as int);
            self.insert(names[i].clone());
            assert(names.deep_view().take(i + 1) =~= before.push(names[i as int]@));
            proof {
                before.lemma_push_to_set_commute(names[i as int]@);
            }
            assert(old(self)@.union(before.to_set()).insert(names[i as int]@) =~= old(self)@.union(
                before.to_set().insert(names[i as int]@),
            ));
            i += 1;
        }
        assert(names.deep_view().take(i as int) =~= names.deep_view());
    }
}

/// The root is named, and is the identity of a package of the graph.
pub open spec fn root_resolves(graph: GraphView) -> bool {
    graph.root matches Some(id) && graph.has_id(id)
}

/// Every workspace member is the identity of a package of the graph.
pub open spec fn members_resolve(graph: GraphView) -> bool {
    forall|i: int|
        0 <= i < graph.workspace_members.len() ==> graph.has_id(#[trigger] graph.workspace_members[i])
}

/// The names that the package with identity `id` depends on directly.
pub open spec fn direct_dependencies(graph: GraphView, id: Seq<char>) -> Set<Seq<char>> {
    graph.package(id).dependencies.to_set()
}

/// The names that one of the first `count` workspace members depends on
/// directly.
pub open spec fn member_dependencies(graph: GraphView, count: int) -> Set<Seq<char>> {
    Set::new(
        |name: Seq<char>|
            exists|i: int|
                0 <= i < count && i < graph.workspace_members.len() && direct_dependencies(
                    graph,
                    #[trigger] graph.workspace_members[i],
                ).contains(name),
    )
}

/// The active-dependency set: the union of the direct dependencies of the
/// root and of every workspace member.
pub open spec fn active_names(graph: GraphView) -> Set<Seq<char>> {
    direct_dependencies(graph, graph.root->Some_0).union(
        member_dependencies(graph, graph.workspace_members.len() as int),
    )
}

/// Computes the active-dependency set of a graph. Fails with `MissingRoot`
/// where the root does not resolve, else with `MemberNotFound` where a
/// workspace member does not.
pub fn active_dependencies(graph: &DependencyGraph) -> (r: Result<ActiveSet, ResolveError>)
    ensures
        match r {
            Ok(active) => root_resolves(graph@) && members_resolve(graph@) && active.well_formed()
                && active@ == active_names(graph@),
            Err(e) => if root_resolves(graph@) {
                !members_resolve(graph@) && e == ResolveError::MemberNotFound
            } else {
                e == ResolveError::MissingRoot
            },
        },
{
    let root: &Package = match graph.root() {
        Some(id) => match graph.package(id) {
            Some(package) => package,
            None => {
                return Err(ResolveError::MissingRoot);
            },
        },
        None => {
            return Err(ResolveError::MissingRoot);
        },
    };
    let mut active = ActiveSet::new();
    active.insert_all(&root.dependencies);
    let members = graph.workspace_members();
    let mut k: usize = 0;
    assert(member_dependencies(graph@, 0) =~= Set::<Seq<char>>::empty());
    assert(active@ =~= direct_dependencies(graph@, graph@.root->Some_0).union(
        member_dependencies(graph@, 0),
    ));
    while k < members.len()
        invariant
            k <= members.len(),
            members.deep_view() == graph@.workspace_members,
            root_resolves(graph@),
            active.well_formed(),
            forall|i: int| 0 <= i < k ==> graph@.has_id(#[trigger] graph@.workspace_members[i]),
            active@ == direct_dependencies(graph@, graph@.root->Some_0).union(
                member_dependencies(graph@, k as int),
            ),
        decreases members.len() - k,
    {
        assert(members[k as int]@ == graph@.workspace_members[k as int]);
        match graph.package(&members[k]) {
            Some(package) => {
                active.insert_all(&package.dependencies);
                assert(member_dependencies(graph@, k + 1) =~= member_dependencies(graph@, k as int).union(
                    direct_dependencies(graph@, graph@.workspace_members[k as int]),
                ));
            },
            None => {
                return Err(ResolveError::MemberNotFound);
            },
        }
        k += 1;
    }
    Ok(active)
}

} // verus!
