//! Package identifiers: origin, name, and, where the package is fully
//! qualified, version and release.

use crate::error::Error;
use crate::package::target::PackageTarget;
use crate::text::copy_string;
use vstd::prelude::*;
use vstd::string::StringExecFns;

verus! {

/// The code of a character.
pub open spec fn code(c: char) -> int {
    c as int
}

/// What a string that may be missing holds.
pub open spec fn optional_view(text: Option<String>) -> Option<Seq<char>> {
    match text {
        Some(s) => Some(s@),
        None => None,
    }
}

/// The identifier of a package. One with both version and release
/// identifies a single build and is called fully qualified.
#[derive(Debug, PartialEq, Eq, Hash)]
pub struct PackageIdent {
    pub origin: String,
    pub name: String,
    pub version: Option<String>,
    pub release: Option<String>,
}

/// What a `PackageIdent` holds.
pub struct PackageIdentView {
    pub origin: Seq<char>,
    pub name: Seq<char>,
    pub version: Option<Seq<char>>,
    pub release: Option<Seq<char>>,
}

impl View for PackageIdent {
    type V = PackageIdentView;

    open spec fn view(&self) -> PackageIdentView {
        PackageIdentView {
            origin: self.origin@,
            name: self.name@,
            version: optional_view(self.version),
            release: optional_view(self.release),
        }
    }
}

impl PackageIdentView {
    /// Whether the identifier has both version and release.
    pub open spec fn fully_qualified(self) -> bool {
        self.version is Some && self.release is Some
    }

    /// The identifier as text: origin and name, then the version and the
    /// release as far as they are there, with `/` between the parts. A
    /// release without a version is not shown.
    pub open spec fn text(self) -> Seq<char> {
        if self.version is Some && self.release is Some {
            self.origin + seq!['/'] + self.name + seq!['/'] + self.version->0 + seq!['/']
                + self.release->0
        } else if self.version is Some {
            self.origin + seq!['/'] + self.name + seq!['/'] + self.version->0
        } else {
            self.origin + seq!['/'] + self.name
        }
    }

    /// The name of the archive file of the package for the target with the
    /// given name: the four parts and the target's name with `-` between
    /// them, and the ending `.hart`.
    pub open spec fn archive_name(self, target: Seq<char>) -> Seq<char> {
        self.origin + seq!['-'] + self.name + seq!['-'] + self.version->0 + seq!['-']
            + self.release->0 + seq!['-'] + target + ".hart"@
    }
}

/// A copy of a text that may be missing.
pub fn copy_optional(text: &Option<String>) -> (copy: Option<String>)
    ensures
        optional_view(copy) == optional_view(*text),
{
    match text {
        Some(s) => Some(copy_string(s)),
        None => None,
    }
}

impl Clone for PackageIdent {
    fn clone(&self) -> (copy: Self)
        ensures
            copy@ == self@,
    {
        PackageIdent {
            origin: copy_string(&self.origin),
            name: copy_string(&self.name),
            version: copy_optional(&self.version),
            release: copy_optional(&self.release),
        }
    }
}

impl PackageIdent {
    /// The identifier with the given parts.
    pub fn new(origin: &str, name: &str, version: Option<&str>, release: Option<&str>) -> (ident:
        Self)
        ensures
            ident@.origin == origin@,
            ident@.name == name@,
            match version {
                Some(v) => ident@.version == Some(v@),
                None => ident@.version is None,
            },
            match release {
                Some(r) => ident@.release == Some(r@),
                None => ident@.release is None,
            },
    {
        PackageIdent {
            origin: origin.to_owned(),
            name: name.to_owned(),
            version: match version {
                Some(v) => Some(v.to_owned()),
                None => None,
            },
            release: match release {
                Some(r) => Some(r.to_owned()),
                None => None,
            },
        }
    }

    /// Whether the identifier has both version and release.
    pub fn fully_qualified(&self) -> (full: bool)
        ensures
            full == self@.fully_qualified(),
    {
        self.version.is_some() && self.release.is_some()
    }

    /// Whether `other` has the same four parts.
    pub fn same_as(&self, other: &PackageIdent) -> (same: bool)
        ensures
            same == (self@ == other@),
    {
        let versions = match (&self.version, &other.version) {
            (Some(a), Some(b)) => *a == *b,
            (None, None) => true,
            _ => false,
        };
        let releases = match (&self.release, &other.release) {
            (Some(a), Some(b)) => *a == *b,
            (None, None) => true,
            _ => false,
        };
        self.origin == other.origin && self.name == other.name && versions && releases
    }

    /// The identifier as text, with `/` between its parts.
    pub fn to_string(&self) -> (text: String)
        ensures
            text@ == self@.text(),
    {
        proof {
            reveal_strlit("/");
        }
        let mut text = copy_string(&self.origin);
        text.append("/");
        text.append(self.name.as_str());
        match (&self.version, &self.release) {
            (Some(version), Some(release)) => {
                text.append("/");
                text.append(version.as_str());
                text.append("/");
                text.append(release.as_str());
                assert(text@ =~= self@.text());
            },
            (Some(version), None) => {
                text.append("/");
                text.append(version.as_str());
                assert(text@ =~= self@.text());
            },
            _ => {
                assert(text@ =~= self@.text());
            },
        }
        text
    }

    /// The name of the archive file of this package for `target`. Only a
    /// fully qualified identifier names an archive.
    pub fn archive_name_with_target(&self, target: PackageTarget) -> (r: Result<String, Error>)
        ensures
            match r {
                Ok(name) => self@.fully_qualified() && name@ == self@.archive_name(
                    target.spec_name(),
                ),
                Err(e) => !self@.fully_qualified() && (e
                    matches Error::FullyQualifiedPackageIdentRequired(text) && text@
                    == self@.text()),
            },
    {
        match (&self.version, &self.release) {
            (Some(version), Some(release)) => {
                proof {
                    reveal_strlit("-");
                }
                let mut name = copy_string(&self.origin);
                name.append("-");
                name.append(self.name.as_str());
                name.append("-");
                name.append(version.as_str());
                name.append("-");
                name.append(release.as_str());
                name.append("-");
                name.append(target.name());
                name.append(".hart");
                assert(name@ =~= self@.archive_name(target.spec_name()));
                Ok(name)
            },
            _ => Err(Error::FullyQualifiedPackageIdentRequired(self.to_string())),
        }
    }
}

} // verus!
