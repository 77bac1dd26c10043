//! The membership table: who belongs to the cluster, and in what health.

use crate::endian::{le_bytes, le_u64, lemma_le_round_trip, read_u64, write_u64};
use crate::error::DecodeFailure;
use crate::text::{copy_string, string_bytes, string_from_utf8};
use vstd::prelude::*;
use vstd::slice::{slice_subrange, slice_to_vec};
use vstd::utf8::{decode_utf8, encode_utf8, valid_utf8};

verus! {

/// The health of a member. It decays from `Alive` over `Suspect` and
/// `Confirmed` to `Departed`, which is final.
#[derive(Clone, Copy, Debug, PartialEq, Eq, Structural)]
pub enum Health {
    Alive,
    Suspect,
    Confirmed,
    Departed,
}

impl Health {
    /// How far the health has decayed: 0 for `Alive`, 3 for `Departed`.
    pub open spec fn rank(self) -> int {
        match self {
            Health::Alive => 0,
            Health::Suspect => 1,
            Health::Confirmed => 2,
            Health::Departed => 3,
        }
    }

    /// The byte that stands for the health in an encoded membership.
    pub open spec fn spec_code(self) -> u8 {
        self.rank() as u8
    }

    /// The health that a byte stands for, if any.
    pub open spec fn spec_from_code(code: u8) -> Option<Health> {
        if code == 0 {
            Some(Health::Alive)
        } else if code == 1 {
            Some(Health::Suspect)
        } else if code == 2 {
            Some(Health::Confirmed)
        } else if code == 3 {
            Some(Health::Departed)
        } else {
            None
        }
    }

    /// The byte that stands for the health in an encoded membership.
    pub fn code(self) -> (code: u8)
        ensures
            code == self.spec_code(),
    {
        match self {
            Health::Alive => 0,
            Health::Suspect => 1,
            Health::Confirmed => 2,
            Health::Departed => 3,
        }
    }

    /// The health that a byte stands for, if any.
    pub fn from_code(code: u8) -> (health: Option<Health>)
        ensures
            health == Health::spec_from_code(code),
    {
        if code == 0 {
            Some(Health::Alive)
        } else if code == 1 {
            Some(Health::Suspect)
        } else if code == 2 {
            Some(Health::Confirmed)
        } else if code == 3 {
            Some(Health::Departed)
        } else {
            None
        }
    }
}

/// A member of the cluster, as the gossip layer describes it.
#[derive(Debug)]
pub struct Member {
    pub id: String,
    pub incarnation: u64,
}

/// What a `Member` holds.
pub struct MemberView {
    pub id: Seq<char>,
    pub incarnation: u64,
}

impl View for Member {
    type V = MemberView;

    open spec fn view(&self) -> MemberView {
        MemberView { id: self.id@, incarnation: self.incarnation }
    }
}

impl Clone for Member {
    fn clone(&self) -> (copy: Self)
        ensures
            copy@ == self@,
    {
        Member { id: copy_string(&self.id), incarnation: self.incarnation }
    }
}

/// A member together with its health: one record of the membership section.
#[derive(Debug)]
pub struct Membership {
    pub member: Member,
    pub health: Health,
}

/// What a `Membership` holds.
pub struct MembershipView {
    pub member: MemberView,
    pub health: Health,
}

impl View for Membership {
    type V = MembershipView;

    open spec fn view(&self) -> MembershipView {
        MembershipView { member: self.member@, health: self.health }
    }
}

/// The payload of a membership: one byte for the health, eight for the
/// incarnation, then the member's id in UTF-8.
pub open spec fn encode_membership(m: MembershipView) -> Seq<u8> {
    seq![m.health.spec_code()] + le_bytes(m.member.incarnation) + encode_utf8(m.member.id)
}

/// The membership that a payload encodes, if any.
pub open spec fn decode_membership(payload: Seq<u8>) -> Option<MembershipView> {
    if payload.len() < 9 {
        None
    } else if Health::spec_from_code(payload[0]) is None {
        None
    } else if !valid_utf8(payload.subrange(9, payload.len() as int)) {
        None
    } else {
        Some(
            MembershipView {
                member: MemberView {
                    id: decode_utf8(payload.subrange(9, payload.len() as int)),
                    incarnation: le_u64(payload.subrange(1, 9)),
                },
                health: Health::spec_from_code(payload[0])->0,
            },
        )
    }
}

/// Decoding an encoded membership gives the membership.
pub proof fn lemma_membership_round_trip(m: MembershipView)
    ensures
        decode_membership(encode_membership(m)) == Some(m),
{
    broadcast use vstd::utf8::encode_utf8_valid_utf8, vstd::utf8::encode_utf8_decode_utf8;

    let payload = encode_membership(m);
    lemma_le_round_trip(m.member.incarnation);
    assert(payload.subrange(1, 9) =~= le_bytes(m.member.incarnation));
    assert(payload.subrange(9, payload.len() as int) =~= encode_utf8(m.member.id));
    assert(payload[0] == m.health.spec_code());
}

impl Membership {
    /// The payload of this membership.
    pub fn write_to_bytes(&self) -> (payload: Vec<u8>)
        ensures
            payload@ == encode_membership(self@),
    {
        let mut payload: Vec<u8> = Vec::new();
        payload.push(self.health.code());
        let mut incarnation = write_u64(self.member.incarnation);
        payload.append(&mut incarnation);
        let mut id = string_bytes(&self.member.id);
        payload.append(&mut id);
        assert(payload@ =~= encode_membership(self@));
        payload
    }

    /// The membership that `payload` encodes. A payload that encodes none
    /// is malformed.
    pub fn from_bytes(payload: &[u8]) -> (r: Result<Membership, DecodeFailure>)
        ensures
            match r {
                Ok(m) => decode_membership(payload@) == Some(m@),
                Err(why) => why == DecodeFailure::MalformedPayload && decode_membership(payload@)
                    is None,
            },
    {
        if payload.len() < 9 {
            return Err(DecodeFailure::MalformedPayload);
        }
        let health = match Health::from_code(payload[0]) {
            Some(health) => health,
            None => {
                return Err(DecodeFailure::MalformedPayload);
            },
        };
        let number = slice_subrange(payload, 1, 9);
        assert(number@.subrange(0, 8) =~= number@);
        let incarnation = read_u64(number);
        let id = match string_from_utf8(slice_to_vec(slice_subrange(payload, 9, payload.len()))) {
            Some(id) => id,
            None => {
                return Err(DecodeFailure::MalformedPayload);
            },
        };
        Ok(Membership { member: Member { id, incarnation }, health })
    }
}

/// A member in the table: its description, its health, and the time, in
/// milliseconds, at which it came to that health.
#[derive(Debug)]
pub struct Entry {
    pub member: Member,
    pub health: Health,
    pub health_since: u64,
}

/// What an `Entry` holds.
pub struct EntryView {
    pub member: MemberView,
    pub health: Health,
    pub health_since: u64,
}

impl View for Entry {
    type V = EntryView;

    open spec fn view(&self) -> EntryView {
        EntryView { member: self.member@, health: self.health, health_since: self.health_since }
    }
}

impl EntryView {
    /// The membership that the entry stands for.
    pub open spec fn membership(self) -> MembershipView {
        MembershipView { member: self.member, health: self.health }
    }

    /// The entry after a sweep at time `now` that moves members from the
    /// health `from` to the health `to` once they have been in `from` for
    /// longer than `timeout`. Other entries stay as they are.
    pub open spec fn aged(self, from: Health, to: Health, timeout: u64, now: u64) -> EntryView {
        if self.health == from && now - self.health_since > timeout {
            EntryView { member: self.member, health: to, health_since: now }
        } else {
            self
        }
    }
}

/// Whether no two entries are of the same member.
pub open spec fn distinct_ids(entries: Seq<EntryView>) -> bool {
    forall|i: int, j: int|
        0 <= i < j < entries.len() ==> (#[trigger] entries[i]).member.id != (
        #[trigger] entries[j]).member.id
}

/// Whether an entry of the member `id` is among `entries`.
pub open spec fn has_member(entries: Seq<EntryView>, id: Seq<char>) -> bool {
    exists|i: int| 0 <= i < entries.len() && (#[trigger] entries[i]).member.id == id
}

/// The index of an entry of the member `id`, where there is one.
pub open spec fn index_of(entries: Seq<EntryView>, id: Seq<char>) -> int {
    choose|i: int| 0 <= i < entries.len() && (#[trigger] entries[i]).member.id == id
}

/// The entries after `entry` was put in: in the place of the entry of the
/// same member, or at the end where the member is new.
pub open spec fn upsert(entries: Seq<EntryView>, entry: EntryView) -> Seq<EntryView> {
    if has_member(entries, entry.member.id) {
        entries.update(index_of(entries, entry.member.id), entry)
    } else {
        entries.push(entry)
    }
}

/// The health of the member `id`, where the table holds it.
pub open spec fn health_in(entries: Seq<EntryView>, id: Seq<char>) -> Option<Health> {
    if has_member(entries, id) {
        Some(entries[index_of(entries, id)].health)
    } else {
        None
    }
}

/// The memberships of the table by the member's id.
pub open spec fn memberships_by_id(entries: Seq<EntryView>) -> Map<Seq<char>, MembershipView> {
    Map::new(
        |id: Seq<char>| has_member(entries, id),
        |id: Seq<char>| entries[index_of(entries, id)].membership(),
    )
}

/// The entries after each of `memberships` was put in, in order, with the
/// health that it names from `now` on.
pub open spec fn upsert_all(entries: Seq<EntryView>, memberships: Seq<MembershipView>, now: u64)
    -> Seq<EntryView>
    decreases memberships.len(),
{
    if memberships.len() == 0 {
        entries
    } else {
        upsert(
            upsert_all(entries, memberships.drop_last(), now),
            EntryView {
                member: memberships.last().member,
                health: memberships.last().health,
                health_since: now,
            },
        )
    }
}

/// The entries after a sweep: each entry aged by the same rule.
pub open spec fn sweep(entries: Seq<EntryView>, from: Health, to: Health, timeout: u64, now: u64)
    -> Seq<EntryView> {
    entries.map_values(|e: EntryView| e.aged(from, to, timeout, now))
}

/// What the entries hold.
pub open spec fn entry_views(entries: Seq<Entry>) -> Seq<EntryView> {
    entries.map_values(|e: Entry| e@)
}

/// What the memberships hold.
pub open spec fn membership_views(memberships: Seq<Membership>) -> Seq<MembershipView> {
    memberships.map_values(|m: Membership| m@)
}

/// Putting an entry in keeps the members distinct.
pub proof fn lemma_upsert_distinct(entries: Seq<EntryView>, entry: EntryView)
    requires
        distinct_ids(entries),
    ensures
        distinct_ids(upsert(entries, entry)),
{
    let after = upsert(entries, entry);
    if has_member(entries, entry.member.id) {
        let at = index_of(entries, entry.member.id);
        assert forall|i: int, j: int| 0 <= i < j < after.len() implies (#[trigger] after[i]).member.id
            != (#[trigger] after[j]).member.id by {
            assert(entries[i].member.id != entries[j].member.id);
            assert(after[i].member.id == entries[i].member.id);
            assert(after[j].member.id == entries[j].member.id);
        }
    } else {
        assert forall|i: int, j: int| 0 <= i < j < after.len() implies (#[trigger] after[i]).member.id
            != (#[trigger] after[j]).member.id by {
            if j < entries.len() {
                assert(entries[i].member.id != entries[j].member.id);
            } else {
                assert(entries[i].member.id != entry.member.id);
            }
        }
    }
}

/// A sweep changes no member's id, so it keeps the members distinct.
pub proof fn lemma_sweep_distinct(
    entries: Seq<EntryView>,
    from: Health,
    to: Health,
    timeout: u64,
    now: u64,
)
    requires
        distinct_ids(entries),
    ensures
        distinct_ids(sweep(entries, from, to, timeout, now)),
{
    let after = sweep(entries, from, to, timeout, now);
    assert forall|i: int, j: int| 0 <= i < j < after.len() implies (#[trigger] after[i]).member.id
        != (#[trigger] after[j]).member.id by {
        assert(entries[i].member.id != entries[j].member.id);
    }
}

/// The authoritative table of members, one entry for each member.
pub struct MemberList {
    entries: Vec<Entry>,
}

impl View for MemberList {
    type V = Seq<EntryView>;

    closed spec fn view(&self) -> Seq<EntryView> {
        entry_views(self.entries@)
    }
}

impl MemberList {
    #[verifier::type_invariant]
    spec fn one_entry_for_each_member(self) -> bool {
        distinct_ids(entry_views(self.entries@))
    }

    /// A table without members.
    pub fn new() -> (list: Self)
        ensures
            list@ == Seq::<EntryView>::empty(),
    {
        let list = MemberList { entries: Vec::new() };
        assert(list@ =~= Seq::<EntryView>::empty());
        list
    }

    /// The number of members.
    pub fn len(&self) -> (n: usize)
        ensures
            n == self@.len(),
            distinct_ids(self@),
    {
        proof {
            use_type_invariant(self);
        }
        self.entries.len()
    }

    /// The index of the entry of the member `id`, if the table holds one.
    fn find(&self, id: &String) -> (at: Option<usize>)
        ensures
            distinct_ids(self@),
            match at {
                Some(i) => i < self@.len() && self@[i as int].member.id == id@ && has_member(
                    self@,
                    id@,
                ) && index_of(self@, id@) == i,
                None => !has_member(self@, id@),
            },
    {
        proof {
            use_type_invariant(self);
        }
        let mut i: usize = 0;
        while i < self.entries.len()
            invariant
                i <= self.entries.len(),
                self@ == entry_views(self.entries@),
                distinct_ids(self@),
                forall|k: int| 0 <= k < i ==> (#[trigger] self@[k]).member.id != id@,
            decreases self.entries.len() - i,
        {
            if self.entries[i].member.id == *id {
                assert(self@[i as int].member.id == id@);
                assert(has_member(self@, id@));
                assert(index_of(self@, id@) == i) by {
                    let c = index_of(self@, id@);
                    assert(self@[c].member.id == id@);
                    if c < i {
                        assert(self@[c].member.id != self@[i as int].member.id);
                    }
                    if c > i {
                        assert(self@[i as int].member.id != self@[c].member.id);
                    }
                }
                return Some(i);
            }
            i += 1;
        }
        None
    }

    /// The health of the member `id`, where the table holds it.
    pub fn health_of(&self, id: &str) -> (health: Option<Health>)
        ensures
            health == health_in(self@, id@),
    {
        let id = id.to_owned();
        match self.find(&id) {
            Some(i) => Some(self.entries[i].health),
            None => None,
        }
    }

    /// Puts `member` in with the given health, which it has from `now` on:
    /// in the place of the member's earlier entry, or as a new entry.
    pub fn insert(&mut self, member: Member, health: Health, now: u64)
        ensures
            final(self)@ == upsert(
                old(self)@,
                EntryView { member: member@, health, health_since: now },
            ),
            distinct_ids(final(self)@),
    {
        let ghost entry = EntryView { member: member@, health, health_since: now };
        let at = self.find(&member.id);
        proof {
            lemma_upsert_distinct(self@, entry);
        }
        let mut entries: Vec<Entry> = Vec::new();
        std::mem::swap(&mut self.entries, &mut entries);
        match at {
            Some(i) => {
                entries.set(i, Entry { member, health, health_since: now });
            },
            None => {
                entries.push(Entry { member, health, health_since: now });
            },
        }
        assert(entry_views(entries@) =~= upsert(old(self)@, entry));
        self.entries = entries;
    }

    /// An independent copy of every membership, in the table's order.
    pub fn snapshot(&self) -> (copy: Vec<Membership>)
        ensures
            membership_views(copy@) == self@.map_values(|e: EntryView| e.membership()),
            distinct_ids(self@),
    {
        proof {
            use_type_invariant(self);
        }
        let mut copy: Vec<Membership> = Vec::new();
        let mut i: usize = 0;
        while i < self.entries.len()
            invariant
                i <= self.entries.len(),
                self@ == entry_views(self.entries@),
                membership_views(copy@) == self@.take(i as int).map_values(
                    |e: EntryView| e.membership(),
                ),
            decreases self.entries.len() - i,
        {
            let entry = &self.entries[i];
            let ghost earlier = copy@;
            let membership = Membership { member: entry.member.clone(), health: entry.health };
            assert(membership@ == self@[i as int].membership());
            copy.push(membership);
            i += 1;
            assert(self@.take(i as int) =~= self@.take(i - 1).push(self@[i - 1]));
            assert(membership_views(copy@) =~= membership_views(earlier).push(membership@));
            assert(membership_views(copy@) =~= self@.take(i as int).map_values(
                |e: EntryView| e.membership(),
            ));
        }
        assert(self@.take(i as int) =~= self@);
        copy
    }

    /// Moves every member that has been in health `from` for longer than
    /// `timeout` milliseconds at time `now` to health `to`.
    fn members_expired_to(&mut self, from: Health, to: Health, timeout: u64, now: u64)
        ensures
            final(self)@ == sweep(old(self)@, from, to, timeout, now),
            distinct_ids(final(self)@),
    {
        proof {
            use_type_invariant(&*self);
            lemma_sweep_distinct(self@, from, to, timeout, now);
        }
        let mut all: Vec<Entry> = Vec::new();
        std::mem::swap(&mut self.entries, &mut all);
        let ghost before = all@;
        let mut swept: Vec<Entry> = Vec::new();
        for entry in it: all
            invariant
                it.seq() == before,
                entry_views(swept@) == sweep(
                    entry_views(before.take(it.index() as int)),
                    from,
                    to,
                    timeout,
                    now,
                ),
        {
            let ghost earlier = swept@;
            let ghost found = entry@;
            assert(entry == before[it.index() as int]);
            assert(before.take(it.index() + 1) =~= before.take(it.index() as int).push(entry));
            let due = entry.health == from && now > entry.health_since && now - entry.health_since
                > timeout;
            if due {
                swept.push(Entry { member: entry.member, health: to, health_since: now });
            } else {
                swept.push(entry);
            }
            assert(swept@.last()@ == found.aged(from, to, timeout, now));
            assert(entry_views(swept@) =~= entry_views(earlier).push(
                found.aged(from, to, timeout, now),
            ));
            assert(entry_views(swept@) =~= sweep(
                entry_views(before.take(it.index() + 1)),
                from,
                to,
                timeout,
                now,
            ));
        }
        assert(before.take(before.len() as int) =~= before);
        self.entries = swept;
    }

    /// Moves every member that has been `Suspect` for longer than
    /// `suspicion_timeout` milliseconds at time `now` to `Confirmed`.
    pub fn members_expired_to_confirmed(&mut self, suspicion_timeout: u64, now: u64)
        ensures
            final(self)@ == sweep(
                old(self)@,
                Health::Suspect,
                Health::Confirmed,
                suspicion_timeout,
                now,
            ),
            distinct_ids(final(self)@),
    {
        self.members_expired_to(Health::Suspect, Health::Confirmed, suspicion_timeout, now)
    }

    /// Moves every member that has been `Confirmed` for longer than
    /// `departure_timeout` milliseconds at time `now` to `Departed`.
    pub fn members_expired_to_departed(&mut self, departure_timeout: u64, now: u64)
        ensures
            final(self)@ == sweep(
                old(self)@,
                Health::Confirmed,
                Health::Departed,
                departure_timeout,
                now,
            ),
            distinct_ids(final(self)@),
    {
        self.members_expired_to(Health::Confirmed, Health::Departed, departure_timeout, now)
    }
}

} // verus!
