//! The decisions of a package download: which artifacts are wanted, what
//! an answer of the depot means, and whether a cached artifact is the one
//! that was asked for. Talking to the depot, waiting between tries, and
//! the cache on disk are the caller's part.

use crate::error::Error;
use crate::package::ident::{PackageIdent, PackageIdentView};
use crate::package::ident_target::{PackageIdentTarget, PackageIdentTargetView};
use crate::package::target::PackageTarget;
use crate::text::copy_string;
use reqwest::StatusCode;
use vstd::prelude::*;
use vstd::string::StringExecFns;

verus! {

/// How often a download is tried again after it failed.
pub const RETRIES: usize = 5;

/// The pause before a download is tried again, in milliseconds.
pub const RETRY_WAIT: u64 = 3000;

/// A failure that the depot's client reports.
#[derive(Debug)]
pub enum ApiFailure {
    /// The depot answered with this HTTP status and this text.
    Api(u16, String),
    /// No answer was had, for the reason given.
    Other(String),
}

/// What the depot tells of a package: its fully qualified identifier and
/// the identifiers of everything that it needs to run.
#[derive(Debug)]
pub struct Package {
    pub ident: PackageIdent,
    pub tdeps: Vec<PackageIdent>,
}

/// `reqwest::StatusCode::NOT_FOUND` as a number (`StatusCode::as_u16`): 404.
#[verifier::external_body]
fn not_found() -> (code: u16)
    ensures
        code == 404,
{
    StatusCode::NOT_FOUND.as_u16()
}

/// `reqwest::StatusCode::NOT_IMPLEMENTED` as a number
/// (`StatusCode::as_u16`): 501.
#[verifier::external_body]
fn not_implemented() -> (code: u16)
    ensures
        code == 501,
{
    StatusCode::NOT_IMPLEMENTED.as_u16()
}

/// The character of a digit.
pub open spec fn digit(d: nat) -> char {
    if d == 0 {
        '0'
    } else if d == 1 {
        '1'
    } else if d == 2 {
        '2'
    } else if d == 3 {
        '3'
    } else if d == 4 {
        '4'
    } else if d == 5 {
        '5'
    } else if d == 6 {
        '6'
    } else if d == 7 {
        '7'
    } else if d == 8 {
        '8'
    } else {
        '9'
    }
}

/// A number in decimal digits, without leading zeros.
pub open spec fn decimal(n: nat) -> Seq<char>
    decreases n,
{
    if n < 10 {
        seq![digit(n)]
    } else {
        decimal(n / 10).push(digit(n % 10))
    }
}

/// `usize::to_string`: the number in decimal digits.
#[verifier::external_body]
fn number_text(n: usize) -> (text: String)
    ensures
        text@ == decimal(n as nat),
{
    n.to_string()
}

/// What the identifiers hold.
pub open spec fn ident_views(idents: Seq<PackageIdent>) -> Seq<PackageIdentView> {
    idents.map_values(|i: PackageIdent| i@)
}

/// What the identifiers with target hold.
pub open spec fn ident_target_views(idents: Seq<PackageIdentTarget>) -> Seq<
    PackageIdentTargetView,
> {
    idents.map_values(|i: PackageIdentTarget| i@)
}

/// The identifiers, each with `target`.
pub open spec fn with_target(idents: Seq<PackageIdentView>, target: PackageTarget) -> Seq<
    PackageIdentTargetView,
> {
    idents.map_values(|ident: PackageIdentView| PackageIdentTargetView { ident, target })
}

/// Everything that the packages ask for, with repetitions: each package
/// itself, followed by what it needs to run.
pub open spec fn asked_for(packages: Seq<Package>) -> Seq<PackageIdentView>
    decreases packages.len(),
{
    if packages.len() == 0 {
        Seq::empty()
    } else {
        asked_for(packages.drop_last()) + seq![packages.last().ident@] + ident_views(
            packages.last().tdeps@,
        )
    }
}

/// The sequence without repetitions: of equal items the first stays.
pub open spec fn unique<T>(items: Seq<T>) -> Seq<T>
    decreases items.len(),
{
    if items.len() == 0 {
        Seq::empty()
    } else if unique(items.drop_last()).contains(items.last()) {
        unique(items.drop_last())
    } else {
        unique(items.drop_last()).push(items.last())
    }
}

/// An index at which `x` stands in `items`, which hold it.
proof fn witness<T>(items: Seq<T>, x: T) -> (i: int)
    requires
        items.contains(x),
    ensures
        0 <= i < items.len(),
        items[i] == x,
{
    choose|i: int| 0 <= i < items.len() && items[i] == x
}

/// A sequence without repetitions holds what the sequence held, each
/// item once.
pub proof fn lemma_unique<T>(items: Seq<T>)
    ensures
        unique(items).no_duplicates(),
        forall|x: T| unique(items).contains(x) <==> items.contains(x),
    decreases items.len(),
{
    if items.len() > 0 {
        let front = items.drop_last();
        let last = items.last();
        lemma_unique(front);
        let u = unique(front);
        let r = unique(items);
        assert(items =~= front.push(last));
        assert(r == if u.contains(last) {
            u
        } else {
            u.push(last)
        });
        assert forall|x: T| r.contains(x) implies items.contains(x) by {
            let j = witness(r, x);
            if j < u.len() {
                assert(u[j] == x);
                assert(u.contains(x));
                assert(front.contains(x));
                let i = witness(front, x);
                assert(items[i] == x);
            } else {
                assert(items[items.len() - 1] == x);
            }
        }
        assert forall|x: T| items.contains(x) implies r.contains(x) by {
            let i = witness(items, x);
            if i < front.len() {
                assert(front[i] == x);
                assert(front.contains(x));
                assert(u.contains(x));
                let j = witness(u, x);
                assert(r[j] == x);
            } else {
                assert(x == last);
                if u.contains(last) {
                } else {
                    assert(r[u.len() as int] == x);
                }
            }
        }
        if !u.contains(last) {
            assert forall|i: int, j: int| 0 <= i < r.len() && 0 <= j < r.len() && i != j implies r[i]
                != r[j] by {
                if i < u.len() && j < u.len() {
                } else if i < u.len() {
                    assert(u.contains(u[i]));
                } else {
                    assert(u.contains(u[j]));
                }
            }
        }
    }
}

/// Whether an identifier with target that holds `wanted` is among `idents`.
fn holds(idents: &Vec<PackageIdentTarget>, wanted: &PackageIdentTarget) -> (found: bool)
    ensures
        found == ident_target_views(idents@).contains(wanted@),
{
    let mut i: usize = 0;
    while i < idents.len()
        invariant
            i <= idents.len(),
            forall|k: int| 0 <= k < i ==> ident_target_views(idents@)[k] != wanted@,
        decreases idents.len() - i,
    {
        if idents[i].same_as(wanted) {
            assert(ident_target_views(idents@)[i as int] == wanted@);
            return true;
        }
        i += 1;
    }
    false
}

/// The artifacts to download for the packages that the depot has told
/// of: each package and everything that it needs to run, for `target`,
/// each artifact once.
pub fn expand_sources(packages: Vec<Package>, target: PackageTarget) -> (expanded: Vec<
    PackageIdentTarget,
>)
    ensures
        ident_target_views(expanded@) == unique(with_target(asked_for(packages@), target)),
{
    let mut expanded: Vec<PackageIdentTarget> = Vec::new();
    let ghost all = packages@;
    assert(with_target(asked_for(all.take(0)), target) =~= Seq::empty());
    for package in it: packages
        invariant
            it.seq() == all,
            ident_target_views(expanded@) == unique(
                with_target(asked_for(all.take(it.index() as int)), target),
            ),
    {
        let ghost before = asked_for(all.take(it.index() as int));
        proof {
            assert(all.take(it.index() + 1).drop_last() =~= all.take(it.index() as int));
            assert(all.take(it.index() + 1).last() == package);
        }
        let ghost tdeps = ident_views(package.tdeps@);
        let ghost own = package.ident@;
        let item = PackageIdentTarget { ident: package.ident, target };
        proof {
            let s = with_target(before + seq![own], target);
            assert(s.drop_last() =~= with_target(before, target));
            assert(s.last() == item@);
        }
        if !holds(&expanded, &item) {
            expanded.push(item);
        }
        assert(ident_target_views(expanded@) =~= unique(with_target(before + seq![own], target)));
        assert(tdeps.take(0) =~= Seq::empty());
        assert(before + seq![own] + tdeps.take(0) =~= before + seq![own]);
        let ghost deps = package.tdeps@;
        for ident in dep: package.tdeps
            invariant
                dep.seq() == deps,
                tdeps == ident_views(deps),
                ident_target_views(expanded@) == unique(
                    with_target(before + seq![own] + tdeps.take(dep.index() as int), target),
                ),
        {
            let ghost sofar = before + seq![own] + tdeps.take(dep.index() as int);
            let item = PackageIdentTarget { ident, target };
            proof {
                let s = with_target(before + seq![own] + tdeps.take(dep.index() + 1), target);
                assert(tdeps[dep.index() as int] == ident@);
                assert(s.drop_last() =~= with_target(sofar, target));
                assert(s.last() == item@);
            }
            if !holds(&expanded, &item) {
                expanded.push(item);
            }
            assert(ident_target_views(expanded@) =~= unique(
                with_target(before + seq![own] + tdeps.take(dep.index() + 1), target),
            ));
        }
        assert(tdeps.take(tdeps.len() as int) =~= tdeps);
    }
    assert(all.take(all.len() as int) =~= all);
    expanded
}

/// What a try to fetch an artifact into the cache came to.
#[derive(Clone, Copy, Debug, PartialEq, Eq, Structural)]
pub enum Fetch {
    /// The artifact is in the cache.
    Fetched,
    /// The depot does not serve the platform or architecture: the artifact
    /// is passed over.
    Skipped,
}

/// The text of a package that the depot lacks in a channel.
pub open spec fn not_found_text(ident: PackageIdentTargetView, channel: Seq<char>) -> Seq<char> {
    ident.text() + " in channel "@ + channel
}

/// The text of a download that failed for good.
pub open spec fn download_failed_text(package: PackageIdentTargetView, last_error: Seq<char>)
    -> Seq<char> {
    "We tried "@ + decimal(RETRIES as nat) + " times but could not download "@ + package.text()
        + ". Last error was: "@ + last_error
}

/// What the depot's answer to the question for the latest release of
/// `ident` in `channel` means: the package that it names, or that the
/// channel has no such package where the depot answered "not found", or
/// the depot's failure as it is.
pub fn determine_latest_from_ident(
    response: Result<Package, ApiFailure>,
    ident: &PackageIdentTarget,
    channel: &str,
) -> (r: Result<Package, Error>)
    ensures
        match response {
            Ok(package) => r == Ok::<Package, Error>(package),
            Err(ApiFailure::Api(code, text)) => if code == 404 {
                r matches Err(Error::PackageNotFound(what)) && what@ == not_found_text(
                    ident@,
                    channel@,
                )
            } else {
                r matches Err(Error::APIClient(ApiFailure::Api(c, t))) && c == code && t == text
            },
            Err(ApiFailure::Other(text)) => r matches Err(
                Error::APIClient(ApiFailure::Other(t)),
            ) && t == text,
        },
{
    match response {
        Ok(latest_package) => Ok(latest_package),
        Err(ApiFailure::Api(code, text)) => {
            if code == not_found() {
                let mut what = ident.to_string();
                what.append(" in channel ");
                what.append(channel);
                Err(Error::PackageNotFound(what))
            } else {
                Err(Error::APIClient(ApiFailure::Api(code, text)))
            }
        },
        Err(e) => Err(Error::APIClient(e)),
    }
}

/// What the depot's answer to the fetch of an artifact means: the
/// artifact is in the cache; or, where the depot answered "not
/// implemented", it does not serve the platform and the artifact is
/// passed over; or the depot's failure as it is.
pub fn fetch_artifact(response: Result<(), ApiFailure>) -> (r: Result<Fetch, Error>)
    ensures
        match response {
            Ok(_) => r == Ok::<Fetch, Error>(Fetch::Fetched),
            Err(ApiFailure::Api(code, text)) => if code == 501 {
                r == Ok::<Fetch, Error>(Fetch::Skipped)
            } else {
                r matches Err(Error::APIClient(ApiFailure::Api(c, t))) && c == code && t == text
            },
            Err(ApiFailure::Other(text)) => r matches Err(
                Error::APIClient(ApiFailure::Other(t)),
            ) && t == text,
        },
{
    match response {
        Ok(_) => Ok(Fetch::Fetched),
        Err(ApiFailure::Api(code, text)) => {
            if code == not_implemented() {
                Ok(Fetch::Skipped)
            } else {
                Err(Error::APIClient(ApiFailure::Api(code, text)))
            }
        },
        Err(e) => Err(Error::APIClient(e)),
    }
}

/// The failure of a download after the last try, which ended with
/// `last_error`.
pub fn download_failed(package: &PackageIdentTarget, last_error: &str) -> (e: Error)
    ensures
        e matches Error::DownloadFailed(text) && text@ == download_failed_text(
            package@,
            last_error@,
        ),
{
    let mut text = "We tried ".to_owned();
    text.append(number_text(RETRIES).as_str());
    text.append(" times but could not download ");
    text.append(package.to_string().as_str());
    text.append(". Last error was: ");
    text.append(last_error);
    Error::DownloadFailed(text)
}

/// Whether the artifact in the cache file `file_name`, which says of
/// itself that it is `artifact_ident` built for `artifact_target`, is the
/// one that was asked for as `package`: first the identifier must be the
/// same, then the target.
pub fn verify_artifact(
    package: &PackageIdentTarget,
    artifact_ident: &PackageIdent,
    artifact_target: PackageTarget,
    file_name: &str,
) -> (r: Result<(), Error>)
    ensures
        if package@.ident != artifact_ident@ {
            r matches Err(Error::ArtifactIdentMismatch(file, found, asked)) && file@ == file_name@
                && found@ == artifact_ident@.text() && asked@ == package@.text()
        } else if package.target != artifact_target {
            r == Err::<(), Error>(
                Error::WrongActivePackageTarget(package.target, artifact_target),
            )
        } else {
            r is Ok
        },
{
    if !package.ident.same_as(artifact_ident) {
        return Err(
            Error::ArtifactIdentMismatch(
                file_name.to_owned(),
                artifact_ident.to_string(),
                package.to_string(),
            ),
        );
    }
    if package.target.rank() != artifact_target.rank() {
        return Err(Error::WrongActivePackageTarget(package.target, artifact_target));
    }
    Ok(())
}

} // verus!
