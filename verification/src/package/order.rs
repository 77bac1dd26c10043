//! The order of texts.

use crate::package::ident::{PackageIdent, PackageIdentView};
use crate::package::ident_target::{PackageIdentTarget, PackageIdentTargetView};
use std::cmp::Ordering;
use vstd::prelude::*;

verus! {

/// The order of two texts: by the first character in which they differ,
/// the character with the smaller code first; a text comes before every
/// longer text that starts with it.
pub open spec fn text_order(a: Seq<char>, b: Seq<char>) -> Ordering
    decreases a.len(),
{
    if a.len() == 0 {
        if b.len() == 0 {
            Ordering::Equal
        } else {
            Ordering::Less
        }
    } else if b.len() == 0 {
        Ordering::Greater
    } else if crate::package::ident::code(a.first()) < crate::package::ident::code(b.first()) {
        Ordering::Less
    } else if crate::package::ident::code(a.first()) > crate::package::ident::code(b.first()) {
        Ordering::Greater
    } else {
        text_order(a.drop_first(), b.drop_first())
    }
}

/// The order of two texts that may be missing: a missing text comes before
/// every text.
pub open spec fn optional_text_order(a: Option<Seq<char>>, b: Option<Seq<char>>) -> Ordering {
    match (a, b) {
        (None, None) => Ordering::Equal,
        (None, Some(_)) => Ordering::Less,
        (Some(_), None) => Ordering::Greater,
        (Some(x), Some(y)) => text_order(x, y),
    }
}

/// The first of two orders that is not `Equal`, or `Equal`.
pub open spec fn first_unequal(first: Ordering, second: Ordering) -> Ordering {
    match first {
        Ordering::Equal => second,
        _ => first,
    }
}

/// `str::cmp`: the order of two strings, which std defines by their bytes
/// and so by the codes of their characters.
#[verifier::external_body]
pub(crate) fn compare_text(a: &str, b: &str) -> (o: Ordering)
    ensures
        o == text_order(a@, b@),
{
    a.cmp(b)
}

/// The order of two texts that may be missing.
pub fn compare_optional_text(a: &Option<String>, b: &Option<String>) -> (o: Ordering)
    ensures
        o == optional_text_order(
            crate::package::ident::optional_view(*a),
            crate::package::ident::optional_view(*b),
        ),
{
    match (a, b) {
        (None, None) => Ordering::Equal,
        (None, Some(_)) => Ordering::Less,
        (Some(_), None) => Ordering::Greater,
        (Some(x), Some(y)) => compare_text(x.as_str(), y.as_str()),
    }
}

/// The order of two numbers.
pub open spec fn number_order(a: int, b: int) -> Ordering {
    if a < b {
        Ordering::Less
    } else if a > b {
        Ordering::Greater
    } else {
        Ordering::Equal
    }
}

/// The order of two identifiers by their parts: by origin, then by name,
/// then by version, then by release, each part as text. A missing version
/// or release comes before every version or release.
pub open spec fn ident_order(a: PackageIdentView, b: PackageIdentView) -> Ordering {
    first_unequal(
        text_order(a.origin, b.origin),
        first_unequal(
            text_order(a.name, b.name),
            first_unequal(
                optional_text_order(a.version, b.version),
                optional_text_order(a.release, b.release),
            ),
        ),
    )
}

/// The order of two identifiers with target: by the identifiers' parts,
/// then by the targets' places.
pub open spec fn ident_target_order(a: PackageIdentTargetView, b: PackageIdentTargetView)
    -> Ordering {
    first_unequal(
        ident_order(a.ident, b.ident),
        number_order(a.target.spec_rank(), b.target.spec_rank()),
    )
}

impl PackageIdent {
    /// The order of this identifier and `other` by their parts.
    pub fn by_parts_cmp(&self, other: &PackageIdent) -> (o: Ordering)
        ensures
            o == ident_order(self@, other@),
    {
        match compare_text(self.origin.as_str(), other.origin.as_str()) {
            Ordering::Equal => {},
            unequal => {
                return unequal;
            },
        }
        match compare_text(self.name.as_str(), other.name.as_str()) {
            Ordering::Equal => {},
            unequal => {
                return unequal;
            },
        }
        match compare_optional_text(&self.version, &other.version) {
            Ordering::Equal => {},
            unequal => {
                return unequal;
            },
        }
        compare_optional_text(&self.release, &other.release)
    }
}

impl PackageIdentTarget {
    /// The order of this identifier with target and `other`: by the
    /// identifiers' parts, then by the targets.
    pub fn cmp(&self, other: &PackageIdentTarget) -> (o: Ordering)
        ensures
            o == ident_target_order(self@, other@),
    {
        let ord = self.ident.by_parts_cmp(&other.ident);
        match ord {
            Ordering::Equal => {
                let a = self.target.rank();
                let b = other.target.rank();
                if a < b {
                    Ordering::Less
                } else if a > b {
                    Ordering::Greater
                } else {
                    Ordering::Equal
                }
            },
            _ => ord,
        }
    }

    /// The order of this identifier with target and `other`, which always
    /// exists.
    pub fn partial_cmp(&self, other: &PackageIdentTarget) -> (o: Option<Ordering>)
        ensures
            o == Some(ident_target_order(self@, other@)),
    {
        Some(self.cmp(other))
    }
}

/// Two texts are in the order `Equal` just when they are the same text.
pub proof fn lemma_text_order_equal(a: Seq<char>, b: Seq<char>)
    ensures
        text_order(a, b) == Ordering::Equal <==> a == b,
    decreases a.len(),
{
    if a.len() > 0 && b.len() > 0 {
        lemma_text_order_equal(a.drop_first(), b.drop_first());
        if a.first() == b.first() && a.drop_first() == b.drop_first() {
            assert(a =~= seq![a.first()] + a.drop_first());
            assert(b =~= seq![b.first()] + b.drop_first());
        }
    } else if a.len() == 0 && b.len() == 0 {
        assert(a =~= b);
    }
}

/// Turning two texts round turns their order round.
pub proof fn lemma_text_order_reverse(a: Seq<char>, b: Seq<char>)
    ensures
        text_order(a, b) == Ordering::Less <==> text_order(b, a) == Ordering::Greater,
    decreases a.len(),
{
    if a.len() > 0 && b.len() > 0 {
        lemma_text_order_reverse(a.drop_first(), b.drop_first());
    }
}

/// Two identifiers with target are in the order `Equal` just when they
/// have the same parts and the same target.
pub proof fn lemma_ident_target_order_equal(a: PackageIdentTargetView, b: PackageIdentTargetView)
    ensures
        ident_target_order(a, b) == Ordering::Equal <==> a == b,
{
    lemma_text_order_equal(a.ident.origin, b.ident.origin);
    lemma_text_order_equal(a.ident.name, b.ident.name);
    if a.ident.version is Some && b.ident.version is Some {
        lemma_text_order_equal(a.ident.version->0, b.ident.version->0);
    }
    if a.ident.release is Some && b.ident.release is Some {
        lemma_text_order_equal(a.ident.release->0, b.ident.release->0);
    }
}

} // verus!
