//! The kinds of fact that a snapshot holds, in the order of their sections.

use vstd::prelude::*;

verus! {

/// A kind of persisted fact. The membership table comes first; the six rumor
/// kinds follow in the order in which their sections stand in a snapshot.
#[derive(Clone, Copy, Debug, PartialEq, Eq, Structural)]
pub enum FactType {
    Membership,
    Service,
    ServiceConfig,
    ServiceFile,
    Election,
    ElectionUpdate,
    Departure,
}

impl FactType {
    /// The stable textual identifier of the kind.
    pub open spec fn spec_message_id(self) -> Seq<char> {
        match self {
            FactType::Membership => "membership"@,
            FactType::Service => "service"@,
            FactType::ServiceConfig => "service_config"@,
            FactType::ServiceFile => "service_file"@,
            FactType::Election => "election"@,
            FactType::ElectionUpdate => "election_update"@,
            FactType::Departure => "departure"@,
        }
    }

    /// The place of the kind's section in a snapshot, counted from 0.
    pub open spec fn spec_position(self) -> int {
        match self {
            FactType::Membership => 0,
            FactType::Service => 1,
            FactType::ServiceConfig => 2,
            FactType::ServiceFile => 3,
            FactType::Election => 4,
            FactType::ElectionUpdate => 5,
            FactType::Departure => 6,
        }
    }

    /// The stable textual identifier of the kind.
    pub fn message_id(self) -> (id: &'static str)
        ensures
            id@ == self.spec_message_id(),
    {
        match self {
            FactType::Membership => "membership",
            FactType::Service => "service",
            FactType::ServiceConfig => "service_config",
            FactType::ServiceFile => "service_file",
            FactType::Election => "election",
            FactType::ElectionUpdate => "election_update",
            FactType::Departure => "departure",
        }
    }

    /// The place of the kind's section in a snapshot, counted from 0.
    pub fn position(self) -> (p: usize)
        ensures
            p == self.spec_position(),
    {
        match self {
            FactType::Membership => 0,
            FactType::Service => 1,
            FactType::ServiceConfig => 2,
            FactType::ServiceFile => 3,
            FactType::Election => 4,
            FactType::ElectionUpdate => 5,
            FactType::Departure => 6,
        }
    }
}

/// No two kinds share an identifier.
pub proof fn lemma_message_ids_distinct(a: FactType, b: FactType)
    ensures
        a.spec_message_id() == b.spec_message_id() <==> a == b,
{
    reveal_strlit("membership");
    reveal_strlit("service");
    reveal_strlit("service_config");
    reveal_strlit("service_file");
    reveal_strlit("election");
    reveal_strlit("election_update");
    reveal_strlit("departure");
    assert(a.spec_message_id().len() == b.spec_message_id().len() ==> a == b);
}

} // verus!
