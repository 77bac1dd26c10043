//! The periodic sweep that times `Suspect` members out to `Confirmed`,
//! `Confirmed` members out to `Departed`, and drops the rumors that have
//! expired.

use crate::fact::FactType;
use crate::member::{sweep, EntryView, Health};
use crate::rumor::unexpired;
use crate::server::Server;
use crate::timing::Timing;
use chrono::offset::Utc;
use vstd::prelude::*;

verus! {

/// The pause between two sweeps, in milliseconds.
pub const LOOP_DELAY_MS: u64 = 500;

/// The table after one sweep at time `now`: first the members that have
/// been `Suspect` for longer than the suspicion timeout become
/// `Confirmed`, then those that have been `Confirmed` for longer than the
/// departure timeout become `Departed`.
pub open spec fn swept(entries: Seq<EntryView>, timing: Timing, now: u64) -> Seq<EntryView> {
    sweep(
        sweep(entries, Health::Suspect, Health::Confirmed, timing.suspicion_timeout_ms, now),
        Health::Confirmed,
        Health::Departed,
        timing.departure_timeout_ms,
        now,
    )
}

/// The state that ages, and the timeouts by which it ages.
pub struct Expire {
    pub server: Server,
    pub timing: Timing,
}

/// `chrono::Utc::now`, as milliseconds since the Unix epoch
/// (`DateTime::timestamp_millis`). It is the time of the machine's clock:
/// nothing is known of it in advance.
#[verifier::external_body]
fn utc_now_millis() -> u64 {
    Utc::now().timestamp_millis() as u64
}

impl Expire {
    pub fn new(server: Server, timing: Timing) -> (expire: Expire)
        ensures
            expire.server == server,
            expire.timing == timing,
    {
        Expire { server, timing }
    }

    /// One sweep at time `now`: the two health sweeps, in their order, and
    /// then the purge of every store of rumors, all at the same time `now`.
    pub fn tick(&mut self, now: u64)
        ensures
            final(self).timing == old(self).timing,
            final(self).server.member_list@ == swept(
                old(self).server.member_list@,
                old(self).timing,
                now,
            ),
            forall|kind: FactType| #[trigger]
                final(self).server.rumors(kind) == unexpired(old(self).server.rumors(kind), now),
    {
        self.server.member_list.members_expired_to_confirmed(
            self.timing.suspicion_timeout_duration(),
            now,
        );
        self.server.member_list.members_expired_to_departed(
            self.timing.departure_timeout_duration(),
            now,
        );
        self.server.departure_store.purge_expired(now);
        self.server.election_store.purge_expired(now);
        self.server.update_store.purge_expired(now);
        self.server.service_store.purge_expired(now);
        self.server.service_config_store.purge_expired(now);
        self.server.service_file_store.purge_expired(now);
        assert(unexpired(Seq::empty(), now) =~= Seq::empty());
    }

    /// One sweep at the time that the clock shows. Returns that time. The
    /// caller pauses for `LOOP_DELAY_MS` before the next sweep.
    pub fn run_once(&mut self) -> (now: u64)
        ensures
            final(self).timing == old(self).timing,
            final(self).server.member_list@ == swept(
                old(self).server.member_list@,
                old(self).timing,
                now,
            ),
            forall|kind: FactType| #[trigger]
                final(self).server.rumors(kind) == unexpired(old(self).server.rumors(kind), now),
    {
        let now = utc_now_millis();
        self.tick(now);
        now
    }
}

/// A sweep moves a member that has been `Suspect` for longer than the
/// suspicion timeout to `Confirmed`, and one that has been `Confirmed` for
/// longer than the departure timeout to `Departed`. It moves no other
/// member: health never improves by a sweep, a member that is `Alive`
/// after a sweep was `Alive` before, and a `Departed` member stays as it is.
pub proof fn lemma_health_decays(entries: Seq<EntryView>, timing: Timing, now: u64, i: int)
    requires
        0 <= i < entries.len(),
    ensures
        swept(entries, timing, now).len() == entries.len(),
        swept(entries, timing, now)[i].member == entries[i].member,
        entries[i].health == Health::Suspect && now - entries[i].health_since
            > timing.suspicion_timeout_ms ==> swept(entries, timing, now)[i].health
            == Health::Confirmed,
        entries[i].health == Health::Confirmed && now - entries[i].health_since
            > timing.departure_timeout_ms ==> swept(entries, timing, now)[i].health
            == Health::Departed,
        swept(entries, timing, now)[i].health.rank() >= entries[i].health.rank(),
        swept(entries, timing, now)[i].health == Health::Alive ==> entries[i].health
            == Health::Alive,
        entries[i].health == Health::Departed ==> swept(entries, timing, now)[i] == entries[i],
        entries[i].health == Health::Alive ==> swept(entries, timing, now)[i] == entries[i],
{
}

} // verus!
