//! The platforms that a package can be built for.

use crate::error::Error;
use vstd::prelude::*;

verus! {

/// A platform that a package is built for: an architecture and a system.
#[derive(Clone, Copy, Debug, PartialEq, Eq, Hash, Structural)]
pub enum PackageTarget {
    X86_64Darwin,
    X86_64Linux,
    X86_64LinuxKernel2,
    X86_64Windows,
}

impl std::str::FromStr for PackageTarget {
    type Err = Error;

    /// The target that `value` names.
    fn from_str(value: &str) -> (r: Result<Self, Error>)
        ensures
            match r {
                Ok(target) => target.spec_name() == value@,
                Err(e) => !PackageTarget::names_target(value@) && (e
                    matches Error::InvalidPackageTarget(text) && text@ == value@),
            },
    {
        PackageTarget::from_str(value)
    }
}

impl PackageTarget {
    /// The name of the target, as it stands in identifiers and file names.
    pub open spec fn spec_name(self) -> Seq<char> {
        match self {
            PackageTarget::X86_64Darwin => "x86_64-darwin"@,
            PackageTarget::X86_64Linux => "x86_64-linux"@,
            PackageTarget::X86_64LinuxKernel2 => "x86_64-linux-kernel2"@,
            PackageTarget::X86_64Windows => "x86_64-windows"@,
        }
    }

    /// The place of the target in the order of the targets.
    pub open spec fn spec_rank(self) -> int {
        match self {
            PackageTarget::X86_64Darwin => 0,
            PackageTarget::X86_64Linux => 1,
            PackageTarget::X86_64LinuxKernel2 => 2,
            PackageTarget::X86_64Windows => 3,
        }
    }

    /// The name of the target, as it stands in identifiers and file names.
    pub fn name(self) -> (name: &'static str)
        ensures
            name@ == self.spec_name(),
    {
        match self {
            PackageTarget::X86_64Darwin => "x86_64-darwin",
            PackageTarget::X86_64Linux => "x86_64-linux",
            PackageTarget::X86_64LinuxKernel2 => "x86_64-linux-kernel2",
            PackageTarget::X86_64Windows => "x86_64-windows",
        }
    }

    /// The place of the target in the order of the targets.
    pub fn rank(self) -> (rank: u8)
        ensures
            rank == self.spec_rank(),
    {
        match self {
            PackageTarget::X86_64Darwin => 0,
            PackageTarget::X86_64Linux => 1,
            PackageTarget::X86_64LinuxKernel2 => 2,
            PackageTarget::X86_64Windows => 3,
        }
    }

    /// Whether `value` is the name of some target.
    pub open spec fn names_target(value: Seq<char>) -> bool {
        exists|target: PackageTarget| target.spec_name() == value
    }

    /// The target that `value` names.
    pub fn from_str(value: &str) -> (r: Result<PackageTarget, Error>)
        ensures
            match r {
                Ok(target) => target.spec_name() == value@,
                Err(e) => !Self::names_target(value@) && (e matches Error::InvalidPackageTarget(
                    text,
                ) && text@ == value@),
            },
    {
        let text = value.to_owned();
        if text == PackageTarget::X86_64Darwin.name().to_owned() {
            Ok(PackageTarget::X86_64Darwin)
        } else if text == PackageTarget::X86_64Linux.name().to_owned() {
            Ok(PackageTarget::X86_64Linux)
        } else if text == PackageTarget::X86_64LinuxKernel2.name().to_owned() {
            Ok(PackageTarget::X86_64LinuxKernel2)
        } else if text == PackageTarget::X86_64Windows.name().to_owned() {
            Ok(PackageTarget::X86_64Windows)
        } else {
            assert forall|target: PackageTarget| target.spec_name() != value@ by {
                match target {
                    PackageTarget::X86_64Darwin => {},
                    PackageTarget::X86_64Linux => {},
                    PackageTarget::X86_64LinuxKernel2 => {},
                    PackageTarget::X86_64Windows => {},
                }
            }
            Err(Error::InvalidPackageTarget(text))
        }
    }
}

/// No two targets share a name.
pub proof fn lemma_target_names_distinct(a: PackageTarget, b: PackageTarget)
    ensures
        a.spec_name() == b.spec_name() <==> a == b,
{
    reveal_strlit("x86_64-darwin");
    reveal_strlit("x86_64-linux");
    reveal_strlit("x86_64-linux-kernel2");
    reveal_strlit("x86_64-windows");
    assert(a.spec_name().len() == b.spec_name().len() ==> a == b);
}

} // verus!
