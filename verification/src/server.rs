//! The gossip state of one node: the membership table and a store for each
//! kind of rumor.

use crate::fact::FactType;
use crate::member::{distinct_ids, upsert, EntryView, Health, Member, MemberList};
use crate::rumor::{distinct_keys, put, Rumor, RumorStore, RumorView};
use vstd::prelude::*;

verus! {

/// The state that a snapshot saves and restores, and that ages over time.
pub struct Server {
    pub member_list: MemberList,
    pub service_store: RumorStore,
    pub service_config_store: RumorStore,
    pub service_file_store: RumorStore,
    pub election_store: RumorStore,
    pub update_store: RumorStore,
    pub departure_store: RumorStore,
}

impl Server {
    /// The rumors of the given kind, in their store's order. The membership
    /// table is no store of rumors.
    pub open spec fn rumors(&self, kind: FactType) -> Seq<RumorView> {
        match kind {
            FactType::Membership => Seq::empty(),
            FactType::Service => self.service_store@,
            FactType::ServiceConfig => self.service_config_store@,
            FactType::ServiceFile => self.service_file_store@,
            FactType::Election => self.election_store@,
            FactType::ElectionUpdate => self.update_store@,
            FactType::Departure => self.departure_store@,
        }
    }

    /// Whether nothing but the store of `kind` differs between `self` and
    /// `other`.
    pub open spec fn same_but(&self, other: &Server, kind: FactType) -> bool {
        &&& kind != FactType::Membership ==> self.member_list@ == other.member_list@
        &&& forall|k: FactType| k != kind ==> self.rumors(k) == other.rumors(k)
    }

    /// Whether the table holds one entry for each member, and each store
    /// one rumor for each member and key.
    pub open spec fn well_formed(&self) -> bool {
        &&& distinct_ids(self.member_list@)
        &&& forall|kind: FactType| distinct_keys(#[trigger] self.rumors(kind))
    }

    /// Whether `self` and `other` hold the same members and rumors.
    pub open spec fn same_as(&self, other: &Server) -> bool {
        &&& self.member_list@ == other.member_list@
        &&& forall|k: FactType| self.rumors(k) == other.rumors(k)
    }

    /// A state without members and without rumors.
    pub fn new() -> (server: Self)
        ensures
            server.member_list@ == Seq::<EntryView>::empty(),
            forall|kind: FactType| server.rumors(kind) == Seq::<RumorView>::empty(),
    {
        Server {
            member_list: MemberList::new(),
            service_store: RumorStore::new(),
            service_config_store: RumorStore::new(),
            service_file_store: RumorStore::new(),
            election_store: RumorStore::new(),
            update_store: RumorStore::new(),
            departure_store: RumorStore::new(),
        }
    }

    /// The store of the rumors of `kind`, which is a kind of rumor.
    pub fn store(&self, kind: FactType) -> (store: &RumorStore)
        requires
            kind != FactType::Membership,
        ensures
            store@ == self.rumors(kind),
    {
        match kind {
            FactType::Service => &self.service_store,
            FactType::ServiceConfig => &self.service_config_store,
            FactType::ServiceFile => &self.service_file_store,
            FactType::Election => &self.election_store,
            FactType::ElectionUpdate => &self.update_store,
            _ => &self.departure_store,
        }
    }

    /// Puts a member with its health into the membership table. The member
    /// has that health from `now` on.
    pub fn insert_member(&mut self, member: Member, health: Health, now: u64)
        ensures
            final(self).member_list@ == upsert(
                old(self).member_list@,
                EntryView { member: member@, health, health_since: now },
            ),
            final(self).same_but(old(self), FactType::Membership),
    {
        self.member_list.insert(member, health, now);
    }

    /// Puts a rumor into the store of `kind`, which is a kind of rumor.
    pub fn insert_rumor(&mut self, kind: FactType, rumor: Rumor)
        requires
            kind != FactType::Membership,
        ensures
            final(self).rumors(kind) == put(old(self).rumors(kind), rumor@),
            final(self).same_but(old(self), kind),
    {
        match kind {
            FactType::Service => self.service_store.insert(rumor),
            FactType::ServiceConfig => self.service_config_store.insert(rumor),
            FactType::ServiceFile => self.service_file_store.insert(rumor),
            FactType::Election => self.election_store.insert(rumor),
            FactType::ElectionUpdate => self.update_store.insert(rumor),
            _ => self.departure_store.insert(rumor),
        }
    }

    /// Puts a service rumor into its store.
    pub fn insert_service(&mut self, service: Rumor)
        ensures
            final(self).service_store@ == put(old(self).service_store@, service@),
            final(self).same_but(old(self), FactType::Service),
    {
        self.insert_rumor(FactType::Service, service)
    }

    /// Puts a service configuration rumor into its store.
    pub fn insert_service_config(&mut self, service_config: Rumor)
        ensures
            final(self).service_config_store@ == put(
                old(self).service_config_store@,
                service_config@,
            ),
            final(self).same_but(old(self), FactType::ServiceConfig),
    {
        self.insert_rumor(FactType::ServiceConfig, service_config)
    }

    /// Puts a service file rumor into its store.
    pub fn insert_service_file(&mut self, service_file: Rumor)
        ensures
            final(self).service_file_store@ == put(old(self).service_file_store@, service_file@),
            final(self).same_but(old(self), FactType::ServiceFile),
    {
        self.insert_rumor(FactType::ServiceFile, service_file)
    }

    /// Puts an election rumor into its store.
    pub fn insert_election_mlr(&mut self, election: Rumor)
        ensures
            final(self).election_store@ == put(old(self).election_store@, election@),
            final(self).same_but(old(self), FactType::Election),
    {
        self.insert_rumor(FactType::Election, election)
    }

    /// Puts an election update rumor into its store.
    pub fn insert_update_election_mlr(&mut self, update_election: Rumor)
        ensures
            final(self).update_store@ == put(old(self).update_store@, update_election@),
            final(self).same_but(old(self), FactType::ElectionUpdate),
    {
        self.insert_rumor(FactType::ElectionUpdate, update_election)
    }

    /// Puts a departure rumor into its store.
    pub fn insert_departure(&mut self, departure: Rumor)
        ensures
            final(self).departure_store@ == put(old(self).departure_store@, departure@),
            final(self).same_but(old(self), FactType::Departure),
    {
        self.insert_rumor(FactType::Departure, departure)
    }
}

} // verus!
