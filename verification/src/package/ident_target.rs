//! A package identifier together with the target that the package is
//! built for: only the two together identify an artifact.

use crate::error::Error;
use crate::package::ident::{PackageIdent, PackageIdentView};
use crate::package::target::{lemma_target_names_distinct, PackageTarget};
use crate::package::text::{split, split_text, texts};
use crate::text::copy_string;
use vstd::prelude::*;
use vstd::string::StringExecFns;

verus! {

/// A package identifier and a target.
#[derive(Debug, PartialEq, Eq, Hash)]
pub struct PackageIdentTarget {
    pub ident: PackageIdent,
    pub target: PackageTarget,
}

/// What a `PackageIdentTarget` holds.
pub struct PackageIdentTargetView {
    pub ident: PackageIdentView,
    pub target: PackageTarget,
}

impl View for PackageIdentTarget {
    type V = PackageIdentTargetView;

    open spec fn view(&self) -> PackageIdentTargetView {
        PackageIdentTargetView { ident: self.ident@, target: self.target }
    }
}

impl PackageIdentTargetView {
    /// The identifier and the target's name as text, with `/` between them.
    pub open spec fn text(self) -> Seq<char> {
        self.ident.text() + seq!['/'] + self.target.spec_name()
    }
}

/// The identifier with target that `value` spells: `value` must have five
/// parts between its `/`, origin, name, version, release and a target's
/// name, in this order.
pub open spec fn parse_ident_target(value: Seq<char>) -> Option<PackageIdentTargetView> {
    let items = split_text(value, '/');
    if items.len() == 5 && PackageTarget::names_target(items[4]) {
        Some(
            PackageIdentTargetView {
                ident: PackageIdentView {
                    origin: items[0],
                    name: items[1],
                    version: Some(items[2]),
                    release: Some(items[3]),
                },
                target: choose|target: PackageTarget| target.spec_name() == items[4],
            },
        )
    } else {
        None
    }
}

impl Clone for PackageIdentTarget {
    fn clone(&self) -> (copy: Self)
        ensures
            copy@ == self@,
    {
        PackageIdentTarget { ident: self.ident.clone(), target: self.target }
    }
}

impl std::str::FromStr for PackageIdentTarget {
    type Err = Error;

    /// The identifier with target that `value` spells, in the form
    /// origin/name/version/release/target.
    fn from_str(value: &str) -> (r: Result<Self, Error>)
        ensures
            match r {
                Ok(parsed) => parse_ident_target(value@) == Some(parsed@),
                Err(e) => parse_ident_target(value@) is None && (e
                    matches Error::InvalidPackageIdentTarget(text) && text@ == value@),
            },
    {
        PackageIdentTarget::from_str(value)
    }
}

impl PackageIdentTarget {
    pub fn new(ident: PackageIdent, target: PackageTarget) -> (r: Self)
        ensures
            r.ident == ident,
            r.target == target,
    {
        PackageIdentTarget { ident, target }
    }

    /// The name of the archive file of the package. Only a fully qualified
    /// identifier names an archive.
    pub fn archive_name(&self) -> (r: Result<String, Error>)
        ensures
            match r {
                Ok(name) => self@.ident.fully_qualified() && name@ == self@.ident.archive_name(
                    self.target.spec_name(),
                ),
                Err(e) => !self@.ident.fully_qualified() && (e
                    matches Error::FullyQualifiedPackageIdentRequired(text) && text@
                    == self@.ident.text()),
            },
    {
        self.ident.archive_name_with_target(self.target)
    }

    /// Whether `other` has the same identifier and the same target.
    pub fn same_as(&self, other: &PackageIdentTarget) -> (same: bool)
        ensures
            same == (self@ == other@),
    {
        self.ident.same_as(&other.ident) && self.target.rank() == other.target.rank()
    }

    /// The identifier and the target's name as text, with `/` between them.
    pub fn to_string(&self) -> (text: String)
        ensures
            text@ == self@.text(),
    {
        proof {
            reveal_strlit("/");
        }
        let mut text = self.ident.to_string();
        text.append("/");
        text.append(self.target.name());
        assert(text@ =~= self@.text());
        text
    }

    /// The identifier with target that `value` spells, in the form
    /// origin/name/version/release/target.
    pub fn from_str(value: &str) -> (r: Result<Self, Error>)
        ensures
            match r {
                Ok(parsed) => parse_ident_target(value@) == Some(parsed@),
                Err(e) => parse_ident_target(value@) is None && (e
                    matches Error::InvalidPackageIdentTarget(text) && text@ == value@),
            },
    {
        let items = split(value, '/');
        if items.len() != 5 {
            return Err(Error::InvalidPackageIdentTarget(value.to_owned()));
        }
        let ghost parts = split_text(value@, '/');
        assert(forall|i: int| 0 <= i < 5 ==> (#[trigger] texts(items@)[i]) == items@[i]@);
        assert(items@[0]@ == parts[0]);
        assert(items@[1]@ == parts[1]);
        assert(items@[2]@ == parts[2]);
        assert(items@[3]@ == parts[3]);
        assert(items@[4]@ == parts[4]);
        let target = match PackageTarget::from_str(items[4].as_str()) {
            Ok(target) => target,
            Err(_) => {
                return Err(Error::InvalidPackageIdentTarget(value.to_owned()));
            },
        };
        proof {
            let chosen = choose|t: PackageTarget| t.spec_name() == parts[4];
            assert(chosen.spec_name() == parts[4]);
            lemma_target_names_distinct(chosen, target);
        }
        let ident = PackageIdent::new(
            items[0].as_str(),
            items[1].as_str(),
            Some(items[2].as_str()),
            Some(items[3].as_str()),
        );
        Ok(PackageIdentTarget::new(ident, target))
    }
}

} // verus!
