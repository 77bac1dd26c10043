//! What can go wrong while a snapshot is read.

use crate::download::ApiFailure;
use crate::fact::FactType;
use crate::package::target::PackageTarget;
use vstd::prelude::*;

verus! {

/// Why the bytes of the snapshot file could not be had.
#[derive(Clone, Copy, Debug, PartialEq, Eq, Structural)]
pub enum IoFailure {
    /// The file ended before the bytes that were asked for.
    UnexpectedEof,
    /// A position beyond what a file offset can hold.
    InvalidSeek,
}

/// Why a frame of a section could not be turned into a fact.
#[derive(Clone, Copy, Debug, PartialEq, Eq, Structural)]
pub enum DecodeFailure {
    /// Fewer than eight bytes are left for the frame's length.
    TruncatedLength,
    /// The frame would end beyond the section's declared length.
    FrameOverrunsSection,
    /// The file ended inside the frame's payload.
    TruncatedPayload,
    /// The payload is not the encoding of a fact of the section's kind.
    MalformedPayload,
}

#[derive(Debug)]
pub enum Error {
    /// Reading or seeking in the snapshot file at the given path failed.
    DatFileIO(String, IoFailure),
    /// The frame with the given index in the section of the given kind is
    /// malformed. Nothing is recovered from a snapshot with such a frame.
    Decode(FactType, u64, DecodeFailure),
    /// The text names no package target.
    InvalidPackageTarget(String),
    /// The text is not of the form origin/name/version/release/target.
    InvalidPackageIdentTarget(String),
    /// The package identifier lacks its version or its release.
    FullyQualifiedPackageIdentRequired(String),
    /// The depot has no release of the package in the channel.
    PackageNotFound(String),
    /// The artifact could not be downloaded, however often it was tried.
    DownloadFailed(String),
    /// The artifact in the named file is of another package than the one
    /// that was asked for: the file's name, the artifact's identifier, and
    /// the identifier that was asked for.
    ArtifactIdentMismatch(String, String, String),
    /// The artifact is built for another target than the one that was
    /// asked for: the target that was asked for, and the artifact's.
    WrongActivePackageTarget(PackageTarget, PackageTarget),
    /// The depot answered with a failure.
    APIClient(ApiFailure),
}

} // verus!
