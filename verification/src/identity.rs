//! Package identities and their total order.

use vstd::prelude::*;
use crate::text::{
    law_text_lt_asymmetric, law_text_lt_irreflexive, law_text_lt_total, law_text_lt_transitive,
    text_lt, text_precedes,
};

verus! {

/// The key of a resolved package: its name, its version and where it comes
/// from. A value is never changed once made.
#[derive(Debug)]
pub struct PackageIdentity {
    pub name: String,
    pub version: String,
    pub source: String,
}

/// What a package identity says: three texts.
pub ghost struct IdentityView {
    pub name: Seq<char>,
    pub version: Seq<char>,
    pub source: Seq<char>,
}

impl View for PackageIdentity {
    type V = IdentityView;

    open spec fn view(&self) -> IdentityView {
        IdentityView { name: self.name@, version: self.version@, source: self.source@ }
    }
}

/// What the identities in a list say, one by one.
pub open spec fn identities(list: Seq<PackageIdentity>) -> Seq<IdentityView> {
    list.map_values(|id: PackageIdentity| id@)
}

/// The total order of identities: by name, then by version, then by source.
pub open spec fn identity_lt(a: IdentityView, b: IdentityView) -> bool {
    if a.name != b.name {
        text_lt(a.name, b.name)
    } else if a.version != b.version {
        text_lt(a.version, b.version)
    } else {
        text_lt(a.source, b.source)
    }
}

/// No identity comes before itself, and two identities never come before each
/// other.
pub proof fn law_identity_lt_asymmetric(a: IdentityView, b: IdentityView)
    ensures
        !identity_lt(a, a),
        !(identity_lt(a, b) && identity_lt(b, a)),
{
    law_text_lt_irreflexive(a.source);
    law_text_lt_asymmetric(a.name, b.name);
    law_text_lt_asymmetric(a.version, b.version);
    law_text_lt_asymmetric(a.source, b.source);
}

/// Of two different identities one comes before the other.
pub proof fn law_identity_lt_total(a: IdentityView, b: IdentityView)
    ensures
        a == b || identity_lt(a, b) || identity_lt(b, a),
{
    law_text_lt_total(a.name, b.name);
    law_text_lt_total(a.version, b.version);
    law_text_lt_total(a.source, b.source);
}

/// The order of identities is transitive.
pub proof fn law_identity_lt_transitive(a: IdentityView, b: IdentityView, c: IdentityView)
    requires
        identity_lt(a, b),
        identity_lt(b, c),
    ensures
        identity_lt(a, c),
{
    law_text_lt_irreflexive(a.name);
    law_text_lt_irreflexive(a.version);
    law_text_lt_irreflexive(b.name);
    law_text_lt_irreflexive(b.version);
    law_text_lt_asymmetric(a.name, b.name);
    law_text_lt_asymmetric(a.version, b.version);
    law_text_lt_asymmetric(b.name, c.name);
    law_text_lt_asymmetric(b.version, c.version);
    if a.name != b.name && b.name != c.name {
        law_text_lt_transitive(a.name, b.name, c.name);
    } else if a.name == b.name && b.name == c.name {
        if a.version != b.version && b.version != c.version {
            law_text_lt_transitive(a.version, b.version, c.version);
        } else if a.version == b.version && b.version == c.version {
            law_text_lt_transitive(a.source, b.source, c.source);
        }
    }
}

impl PackageIdentity {
    /// Makes the identity of the package `name` at `version` from `source`.
    pub fn new(name: &str, version: &str, source: &str) -> (id: PackageIdentity)
        ensures
            id@ == (IdentityView { name: name@, version: version@, source: source@ }),
    {
        PackageIdentity {
            name: name.to_owned(),
            version: version.to_owned(),
            source: source.to_owned(),
        }
    }

    /// What the identity reads as: the name, the version, and the source in
    /// brackets.
    pub open spec fn label_text(id: IdentityView) -> Seq<char> {
        id.name + " "@ + id.version + " ("@ + id.source + ")"@
    }

    /// Writes the identity as a text.
    pub fn label(&self) -> (text: String)
        ensures
            text@ == Self::label_text(self@),
    {
        let mut text = self.name.clone();
        text.append(" ");
        text.append(self.version.as_str());
        text.append(" (");
        text.append(self.source.as_str());
        text.append(")");
        text
    }

    /// Whether the two identities are the same.
    pub fn same(&self, other: &PackageIdentity) -> (r: bool)
        ensures
            r == (self@ == other@),
    {
        self.name == other.name && self.version == other.version && self.source == other.source
    }

    /// Whether this identity comes strictly before `other` in the total order.
    pub fn precedes(&self, other: &PackageIdentity) -> (r: bool)
        ensures
            r == identity_lt(self@, other@),
    {
        if self.name != other.name {
            text_precedes(self.name.as_str(), other.name.as_str())
        } else if self.version != other.version {
            text_precedes(self.version.as_str(), other.version.as_str())
        } else {
            text_precedes(self.source.as_str(), other.source.as_str())
        }
    }
}

impl Clone for PackageIdentity {
    fn clone(&self) -> (id: PackageIdentity)
        ensures
            id@ == self@,
    {
        PackageIdentity {
            name: self.name.clone(),
            version: self.version.clone(),
            source: self.source.clone(),
        }
    }
}

impl PartialEq for PackageIdentity {
    fn eq(&self, other: &PackageIdentity) -> (r: bool) {
        self.same(other)
    }
}

impl vstd::std_specs::cmp::PartialEqSpecImpl for PackageIdentity {
    open spec fn obeys_eq_spec() -> bool {
        true
    }

    open spec fn eq_spec(&self, other: &PackageIdentity) -> bool {
        self@ == other@
    }
}

impl Eq for PackageIdentity {

}

} // verus!
