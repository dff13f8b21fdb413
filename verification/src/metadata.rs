//! The resolved package metadata that the closure and the graph are computed
//! from: for each package its resolved dependencies, the dependency
//! specifications recorded for it, and its source root; and the replacements.

use vstd::prelude::*;
use crate::identity::{IdentityView, PackageIdentity};
use crate::platform::Predicate;

verus! {

/// What a dependency is needed for.
#[derive(Clone, Copy, Debug, PartialEq, Eq, Structural)]
pub enum DependencyKind {
    Normal,
    Development,
    Build,
}

/// A dependency as a package records it: the kind, and the platforms it is
/// limited to.
#[derive(Debug)]
pub struct DependencySpec {
    pub kind: DependencyKind,
    pub platform: Option<Predicate>,
}

/// A resolved dependency of a package.
#[derive(Debug)]
pub struct Dependency {
    /// The identity that the dependency was resolved to, before any
    /// replacement.
    pub id: PackageIdentity,
    /// Those of the dependency specifications recorded for the package that
    /// the identity fulfils.
    pub specs: Vec<DependencySpec>,
}

/// What is known of one resolved package.
#[derive(Debug)]
pub struct PackageRecord {
    pub id: PackageIdentity,
    pub dependencies: Vec<Dependency>,
    pub source_root: String,
}

/// A redirection of one identity to another.
#[derive(Debug)]
pub struct Replacement {
    pub declared: PackageIdentity,
    pub replacement: PackageIdentity,
}

/// The resolved dependency set. Where two records carry one identity, the
/// first stands for it; likewise for replacements.
#[derive(Debug)]
pub struct Provider {
    pub packages: Vec<PackageRecord>,
    pub replacements: Vec<Replacement>,
}

impl PackageRecord {
    /// Whether the dependency at `d` fulfils a specification at `s`.
    pub open spec fn spec_matches(&self, d: int, s: int) -> bool {
        &&& 0 <= d < self.dependencies.len()
        &&& 0 <= s < self.dependencies[d].specs.len()
    }

    /// Whether the dependency at `d` fulfils any recorded specification.
    pub open spec fn is_matched(&self, d: int) -> bool {
        exists|s: int| self.spec_matches(d, s)
    }
}

impl Provider {
    /// Whether the record at `i` is the one that stands for `id`.
    pub open spec fn is_record_of(&self, i: int, id: IdentityView) -> bool {
        &&& 0 <= i < self.packages.len()
        &&& self.packages[i].id@ == id
        &&& forall|j: int| 0 <= j < i ==> (#[trigger] self.packages[j]).id@ != id
    }

    /// Whether the provider can describe `id`.
    pub open spec fn knows(&self, id: IdentityView) -> bool {
        exists|i: int| self.is_record_of(i, id)
    }

    /// The place of the record that stands for `id`.
    pub open spec fn position(&self, id: IdentityView) -> int {
        choose|i: int| self.is_record_of(i, id)
    }

    /// Whether the replacement at `r` is the one that applies to `id`.
    pub open spec fn is_replacement_of(&self, r: int, id: IdentityView) -> bool {
        &&& 0 <= r < self.replacements.len()
        &&& self.replacements[r].declared@ == id
        &&& forall|j: int| 0 <= j < r ==> (#[trigger] self.replacements[j]).declared@ != id
    }

    /// The identity that stands in for `id`: its replacement where there is
    /// one, else `id` itself.
    pub open spec fn redirect(&self, id: IdentityView) -> IdentityView {
        if exists|r: int| self.is_replacement_of(r, id) {
            self.replacements[choose|r: int| self.is_replacement_of(r, id)].replacement@
        } else {
            id
        }
    }

    /// Whether the package `from` has a dependency edge to `to` of the given
    /// kind that is limited to `platform`: one of its resolved dependencies,
    /// redirected, is `to`, and a specification that the dependency fulfils
    /// has the kind and the platform.
    pub open spec fn edge(
        &self,
        from: IdentityView,
        to: IdentityView,
        kind: DependencyKind,
        platform: Option<Predicate>,
    ) -> bool {
        exists|i: int, d: int, s: int|
            {
                &&& self.is_record_of(i, from)
                &&& #[trigger] self.packages[i].spec_matches(d, s)
                &&& self.redirect(self.packages[i].dependencies[d].id@) == to
                &&& self.packages[i].dependencies[d].specs[s].kind == kind
                &&& self.packages[i].dependencies[d].specs[s].platform == platform
            }
    }

    /// Whether `package` has the resolved dependency `dependency`, which
    /// fulfils no recorded specification.
    pub open spec fn unmatched(&self, package: IdentityView, dependency: IdentityView) -> bool {
        exists|i: int, d: int|
            {
                &&& self.is_record_of(i, package)
                &&& 0 <= d < self.packages[i].dependencies.len()
                &&& #[trigger] self.packages[i].dependencies[d].id@ == dependency
                &&& !self.packages[i].is_matched(d)
            }
    }

    /// The record that stands for an identity is the only one that does.
    pub(crate) proof fn lemma_record_unique(&self, i: int, j: int, id: IdentityView)
        requires
            self.is_record_of(i, id),
            self.is_record_of(j, id),
        ensures
            i == j,
    {
        if i < j {
            assert(self.packages[i].id@ == id);
        } else if j < i {
            assert(self.packages[j].id@ == id);
        }
    }

    /// The place of a known identity is that of its record.
    pub(crate) proof fn lemma_position(&self, i: int, id: IdentityView)
        requires
            self.is_record_of(i, id),
        ensures
            self.knows(id),
            self.position(id) == i,
    {
        self.lemma_record_unique(i, self.position(id), id);
    }

    /// Finds the record that stands for `id`.
    pub fn find(&self, id: &PackageIdentity) -> (found: Option<usize>)
        ensures
            match found {
                Some(i) => self.is_record_of(i as int, id@),
                None => !self.knows(id@),
            },
    {
        let mut i: usize = 0;
        while i < self.packages.len()
            invariant
                i <= self.packages.len(),
                forall|j: int| 0 <= j < i ==> (#[trigger] self.packages[j]).id@ != id@,
            decreases self.packages.len() - i,
        {
            if self.packages[i].id.same(id) {
                return Some(i);
            }
            i += 1;
        }
        None
    }

    /// The identity that stands in for `id` once replacements are applied.
    pub fn resolve<'a>(&'a self, id: &'a PackageIdentity) -> (target: &'a PackageIdentity)
        ensures
            target@ == self.redirect(id@),
    {
        let mut r: usize = 0;
        while r < self.replacements.len()
            invariant
                r <= self.replacements.len(),
                forall|j: int| 0 <= j < r ==> (#[trigger] self.replacements[j]).declared@ != id@,
            decreases self.replacements.len() - r,
        {
            if self.replacements[r].declared.same(id) {
                proof {
                    assert(self.is_replacement_of(r as int, id@));
                    let chosen = choose|c: int| self.is_replacement_of(c, id@);
                    if chosen < r {
                        assert(self.replacements[chosen].declared@ == id@);
                    } else if r < chosen {
                        assert(self.replacements[r as int].declared@ == id@);
                    }
                }
                return &self.replacements[r].replacement;
            }
            r += 1;
        }
        id
    }
}

} // verus!
