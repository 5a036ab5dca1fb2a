//! Resolved dependency graphs as plain data.
//!
//! A graph is a list of packages with pairwise distinct identities, an
//! optional root identity and the identities of the workspace members.
//! Direct dependencies are held by name: names join the two graphs.

use vstd::prelude::*;

verus! {

/// One package of a resolved graph.
pub struct Package {
    /// Identity, opaque and scoped to the graph.
    pub id: String,
    pub name: String,
    /// Remote-origin locator in raw form; absent for a local package.
    pub source: Option<String>,
    /// Directory that holds the package's manifest file.
    pub manifest_dir: String,
    /// Names of the direct dependencies, in declaration order.
    pub dependencies: Vec<String>,
}

/// The mathematical value of a `Package`.
pub struct PackageView {
    pub id: Seq<char>,
    pub name: Seq<char>,
    pub source: Option<Seq<char>>,
    pub manifest_dir: Seq<char>,
    pub dependencies: Seq<Seq<char>>,
}

impl View for Package {
    type V = PackageView;

    open spec fn view(&self) -> PackageView {
        PackageView {
            id: self.id@,
            name: self.name@,
            source: self.source.deep_view(),
            manifest_dir: self.manifest_dir@,
            dependencies: self.dependencies.deep_view(),
        }
    }
}

impl DeepView for Package {
    type V = PackageView;

    open spec fn deep_view(&self) -> PackageView {
        self@
    }
}

/// The mathematical value of a `DependencyGraph`.
pub struct GraphView {
    pub packages: Seq<PackageView>,
    pub root: Option<Seq<char>>,
    pub workspace_members: Seq<Seq<char>>,
}

/// No two packages of the list share an identity.
pub open spec fn distinct_ids(packages: Seq<PackageView>) -> bool {
    forall|i: int, j: int|
        0 <= i < j < packages.len() ==> (#[trigger] packages[i]).id != (#[trigger] packages[j]).id
}

impl GraphView {
    /// The graph is a mapping from identity to package.
    pub open spec fn well_formed(self) -> bool {
        distinct_ids(self.packages)
    }

    /// Whether some package has this identity.
    pub open spec fn has_id(self, id: Seq<char>) -> bool {
        exists|i: int| 0 <= i < self.packages.len() && (#[trigger] self.packages[i]).id == id
    }

    /// The package with this identity, where `has_id` holds.
    pub open spec fn package(self, id: Seq<char>) -> PackageView {
        self.packages[choose|i: int|
            0 <= i < self.packages.len() && (#[trigger] self.packages[i]).id == id]
    }

    /// Whether some package has this name.
    pub open spec fn has_name(self, name: Seq<char>) -> bool {
        exists|i: int| 0 <= i < self.packages.len() && (#[trigger] self.packages[i]).name == name
    }

    /// Whether `i` is the position of the first package with this name.
    pub open spec fn is_first_named(self, i: int, name: Seq<char>) -> bool {
        &&& 0 <= i < self.packages.len()
        &&& self.packages[i].name == name
        &&& forall|j: int| 0 <= j < i ==> (#[trigger] self.packages[j]).name != name
    }

    /// The first package with this name, where `has_name` holds.
    pub open spec fn first_named(self, name: Seq<char>) -> PackageView {
        self.packages[choose|i: int| self.is_first_named(i, name)]
    }
}

/// A resolved dependency graph: an immutable snapshot.
pub struct DependencyGraph {
    packages: Vec<Package>,
    root: Option<String>,
    workspace_members: Vec<String>,
}

impl View for DependencyGraph {
    type V = GraphView;

    closed spec fn view(&self) -> GraphView {
        GraphView {
            packages: self.packages.deep_view(),
            root: self.root.deep_view(),
            workspace_members: self.workspace_members.deep_view(),
        }
    }
}

/// The position of the first package with identity `id`, if there is one.
fn position_of_id(packages: &Vec<Package>, id: &String) -> (r: Option<usize>)
    ensures
        match r {
            Some(i) => i < packages.len() && packages[i as int].id@ == id@ && forall|j: int|
                0 <= j < i ==> (#[trigger] packages[j]).id@ != id@,
            None => forall|j: int| 0 <= j < packages.len() ==> (#[trigger] packages[j]).id@ != id@,
        },
{
    let mut i: usize = 0;
    while i < packages.len()
        invariant
            i <= packages.len(),
            forall|j: int| 0 <= j < i ==> (#[trigger] packages[j]).id@ != id@,
        decreases packages.len() - i,
    {
        if packages[i].id == *id {
            return Some(i);
        }
        i += 1;
    }
    None
}

impl DependencyGraph {
    #[verifier::type_invariant]
    spec fn inv(self) -> bool {
        distinct_ids(self.packages.deep_view())
    }

    /// Builds a graph. A list in which two packages share an identity is no
    /// mapping and is refused.
    pub fn new(packages: Vec<Package>, root: Option<String>, workspace_members: Vec<String>) -> (r:
        Option<DependencyGraph>)
        ensures
            r is Some <==> distinct_ids(packages.deep_view()),
            r matches Some(graph) ==> graph@ == (GraphView {
                packages: packages.deep_view(),
                root: root.deep_view(),
                workspace_members: workspace_members.deep_view(),
            }),
    {
        let mut k: usize = 0;
        while k < packages.len()
            invariant
                k <= packages.len(),
                distinct_ids(packages.deep_view().take(k as int)),
            decreases packages.len() - k,
        {
            match position_of_id(&packages, &packages[k].id) {
                Some(i) => {
                    if i < k {
                        assert(packages.deep_view()[i as int].id == packages.deep_view()[k as int].id);
                        return None;
                    }
                },
                None => {},
            }
            assert forall|i: int, j: int| 0 <= i < j < k + 1 implies (#[trigger] packages.deep_view().take(
                k + 1,
            )[i]).id != (#[trigger] packages.deep_view().take(k + 1)[j]).id by {
                if j < k {
                    assert(packages.deep_view().take(k as int)[i].id != packages.deep_view().take(
                        k as int,
                    )[j].id);
                } else {
                    assert(packages[i].id@ != packages[k as int].id@);
                }
            }
            k += 1;
        }
        assert(packages.deep_view().take(k as int) =~= packages.deep_view());
        Some(DependencyGraph { packages, root, workspace_members })
    }

    /// The packages, in the order in which the graph lists them.
    pub fn packages(&self) -> (r: &Vec<Package>)
        ensures
            r.deep_view() == self@.packages,
            self@.well_formed(),
    {
        proof {
            use_type_invariant(self);
        }
        &self.packages
    }

    /// The identity of the root package, if the graph names one.
    pub fn root(&self) -> (r: &Option<String>)
        ensures
            r.deep_view() == self@.root,
    {
        &self.root
    }

    /// The identities of the workspace members.
    pub fn workspace_members(&self) -> (r: &Vec<String>)
        ensures
            r.deep_view() == self@.workspace_members,
    {
        &self.workspace_members
    }

    /// The package with identity `id`.
    pub fn package(&self, id: &String) -> (r: Option<&Package>)
        ensures
            r is Some <==> self@.has_id(id@),
            r matches Some(p) ==> p@ == self@.package(id@),
    {
        proof {
            use_type_invariant(self);
        }
        match position_of_id(&self.packages, id) {
            Some(i) => {
                assert(self@.packages[i as int].id == id@);
                Some(&self.packages[i])
            },
            None => {
                assert forall|j: int| 0 <= j < self@.packages.len() implies (#[trigger] self@.packages[j]).id
                    != id@ by {
                    assert(self.packages[j].id@ != id@);
                }
                None
            },
        }
    }

    /// The first package named `name`.
    pub fn package_named(&self, name: &String) -> (r: Option<&Package>)
        ensures
            r is Some <==> self@.has_name(name@),
            r matches Some(p) ==> p@ == self@.first_named(name@) && p@.name == name@,
    {
        let mut i: usize = 0;
        while i < self.packages.len()
            invariant
                i <= self.packages.len(),
                forall|j: int| 0 <= j < i ==> (#[trigger] self@.packages[j]).name != name@,
            decreases self.packages.len() - i,
        {
            if self.packages[i].name == *name {
                assert(self@.packages[i as int].name == name@);
                assert(self@.is_first_named(i as int, name@));
                assert forall|k: int| self@.is_first_named(k, name@) implies k == i by {}
                return Some(&self.packages[i]);
            }
            i += 1;
        }
        None
    }
}

} // verus!
