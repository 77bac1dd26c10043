//! What a written snapshot gives back when it is read.

use crate::dat_file::{
    first_failure, first_malformed_member, first_malformed_rumor, fits, header_body,
    header_failure, kind_at, lengths_in, lengths_of, measurable, member_payloads, members_in,
    members_of, payloads_of, put_in, rumor_payloads, rumors_in, rumors_of, section_failure,
    section_start, sections_loaded, sections_of, sections_read, snapshot, SectionRead,
};
use crate::endian::{le_bytes, lemma_le_round_trip};
use crate::fact::FactType;
use crate::frame::{framable, frames, frames_len, lemma_frames_len, lemma_parse_frames};
use crate::header::{body_bytes, declared_lengths, declared_size, field};
use crate::member::{
    decode_membership, distinct_ids, has_member, index_of, lemma_membership_round_trip,
    memberships_by_id, upsert_all, EntryView, MembershipView,
};
use crate::rumor::{
    all_encodable, decode_rumor, distinct_keys, has_rumor, lemma_rumor_round_trip, put_all,
    RumorView,
};
use crate::server::Server;
use vstd::prelude::*;

verus! {

/// The header body that was made from seven lengths declares these lengths,
/// and 64 bytes for itself.
pub proof fn lemma_header_round_trip(lengths: Seq<u64>, version: u8)
    requires
        lengths.len() == 7,
        version != 1,
    ensures
        body_bytes(lengths).len() == 64,
        declared_size(body_bytes(lengths), version) == 64,
        declared_lengths(body_bytes(lengths), version) == lengths,
{
    let body = body_bytes(lengths);
    lemma_le_round_trip(64);
    lemma_le_round_trip(lengths[0]);
    lemma_le_round_trip(lengths[1]);
    lemma_le_round_trip(lengths[2]);
    lemma_le_round_trip(lengths[3]);
    lemma_le_round_trip(lengths[4]);
    lemma_le_round_trip(lengths[5]);
    lemma_le_round_trip(lengths[6]);
    assert(body.subrange(0, 8) =~= le_bytes(64));
    assert(body.subrange(8, 16) =~= le_bytes(lengths[0]));
    assert(body.subrange(16, 24) =~= le_bytes(lengths[1]));
    assert(body.subrange(24, 32) =~= le_bytes(lengths[2]));
    assert(body.subrange(32, 40) =~= le_bytes(lengths[3]));
    assert(body.subrange(40, 48) =~= le_bytes(lengths[4]));
    assert(body.subrange(48, 56) =~= le_bytes(lengths[5]));
    assert(body.subrange(56, 64) =~= le_bytes(lengths[6]));
    assert(field(body, 0) == 64);
    assert(field(body, 1) == lengths[0]);
    assert(field(body, 2) == lengths[1]);
    assert(field(body, 3) == lengths[2]);
    assert(field(body, 4) == lengths[3]);
    assert(field(body, 5) == lengths[4]);
    assert(field(body, 6) == lengths[5]);
    assert(field(body, 7) == lengths[6]);
    assert(declared_lengths(body, version) =~= lengths);
}

/// The offset at which section `k` of a snapshot with the given sections
/// starts: behind the version byte, the header body, and the sections
/// before it.
pub open spec fn start_of(sections: Seq<Seq<u8>>, k: int) -> int
    decreases k,
{
    if k <= 0 {
        65
    } else {
        start_of(sections, k - 1) + sections[k - 1].len()
    }
}

/// In a written snapshot the header can be read, it declares the length of
/// each section as it is, and each section starts where the one before it
/// ends.
#[verifier::rlimit(40)]
pub proof fn lemma_snapshot_header(sections: Seq<Seq<u8>>)
    requires
        sections.len() == 7,
        measurable(sections),
    ensures
        snapshot(sections)[0] == 2,
        snapshot(sections).len() == start_of(sections, 7),
        header_failure(snapshot(sections), 0) is None,
        lengths_in(snapshot(sections), 0) == lengths_of(sections),
        forall|k: int|
            0 <= k <= 7 ==> #[trigger] section_start(snapshot(sections), 0, k) == start_of(
                sections,
                k,
            ),
{
    let bytes = snapshot(sections);
    let lengths = lengths_of(sections);
    lemma_header_round_trip(lengths, 2);
    assert(header_body(bytes, 0) =~= body_bytes(lengths));
    reveal_with_fuel(start_of, 8);
    assert(section_start(bytes, 0, 0) == 65);
    assert(section_start(bytes, 0, 1) == start_of(sections, 1));
    assert(section_start(bytes, 0, 2) == start_of(sections, 2));
    assert(section_start(bytes, 0, 3) == start_of(sections, 3));
    assert(section_start(bytes, 0, 4) == start_of(sections, 4));
    assert(section_start(bytes, 0, 5) == start_of(sections, 5));
    assert(section_start(bytes, 0, 6) == start_of(sections, 6));
    assert(section_start(bytes, 0, 7) == start_of(sections, 7));
}

/// In a written snapshot section `k` stands at its start, whole.
#[verifier::rlimit(40)]
pub proof fn lemma_section_sits(sections: Seq<Seq<u8>>, k: int)
    requires
        sections.len() == 7,
        0 <= k < 7,
    ensures
        65 <= start_of(sections, k),
        start_of(sections, k) + sections[k].len() <= snapshot(sections).len(),
        snapshot(sections) == snapshot(sections).subrange(0, start_of(sections, k)) + sections[k]
            + snapshot(sections).subrange(
            start_of(sections, k) + sections[k].len(),
            snapshot(sections).len() as int,
        ),
{
    let bytes = snapshot(sections);
    let lengths = lengths_of(sections);
    lemma_le_round_trip(64);
    lemma_le_round_trip(lengths[0]);
    lemma_le_round_trip(lengths[1]);
    lemma_le_round_trip(lengths[2]);
    lemma_le_round_trip(lengths[3]);
    lemma_le_round_trip(lengths[4]);
    lemma_le_round_trip(lengths[5]);
    lemma_le_round_trip(lengths[6]);
    assert(body_bytes(lengths).len() == 64);
    reveal_with_fuel(start_of, 8);
    let a = start_of(sections, k);
    let b = a + sections[k].len();
    assert(bytes.len() == start_of(sections, 7));
    assert(bytes.subrange(a, b) =~= sections[k]);
    assert(bytes =~= bytes.subrange(0, a) + bytes.subrange(a, b) + bytes.subrange(
        b,
        bytes.len() as int,
    ));
}

/// Reading the written section of a table gives the table's memberships.
pub proof fn lemma_members_read_back(
    before: Seq<u8>,
    entries: Seq<EntryView>,
    after: Seq<u8>,
)
    requires
        framable(member_payloads(entries)),
    ensures
        members_in(
            before + frames(member_payloads(entries)) + after,
            before.len() as int,
            frames(member_payloads(entries)).len() as int,
        ) == SectionRead::Facts(entries.map_values(|e: EntryView| e.membership())),
{
    let payloads = member_payloads(entries);
    lemma_parse_frames(before, payloads, after);
    assert forall|i: int| 0 <= i < payloads.len() implies decode_membership(
        #[trigger] payloads[i],
    ) == Some(entries[i].membership()) by {
        lemma_membership_round_trip(entries[i].membership());
    }
    assert forall|i: int| !first_malformed_member(payloads, i) by {
        if 0 <= i < payloads.len() {
            assert(decode_membership(payloads[i]) is Some);
        }
    }
    assert(payloads.map_values(|p: Seq<u8>| decode_membership(p)->0) =~= entries.map_values(
        |e: EntryView| e.membership(),
    ));
}

/// Reading the written section of a store gives the store's rumors.
pub proof fn lemma_rumors_read_back(before: Seq<u8>, rumors: Seq<RumorView>, after: Seq<u8>)
    requires
        framable(rumor_payloads(rumors)),
        all_encodable(rumors),
    ensures
        rumors_in(
            before + frames(rumor_payloads(rumors)) + after,
            before.len() as int,
            frames(rumor_payloads(rumors)).len() as int,
        ) == SectionRead::Facts(rumors),
{
    let payloads = rumor_payloads(rumors);
    lemma_parse_frames(before, payloads, after);
    assert forall|i: int| 0 <= i < payloads.len() implies decode_rumor(#[trigger] payloads[i])
        == Some(rumors[i]) by {
        lemma_rumor_round_trip(rumors[i]);
    }
    assert forall|i: int| !first_malformed_rumor(payloads, i) by {
        if 0 <= i < payloads.len() {
            assert(decode_rumor(payloads[i]) is Some);
        }
    }
    assert(payloads.map_values(|p: Seq<u8>| decode_rumor(p)->0) =~= rumors);
}

/// Putting rumors with distinct keys into an empty store, one after
/// another, gives a store that holds just these rumors, in their order.
pub proof fn lemma_put_all_into_empty(rumors: Seq<RumorView>)
    requires
        distinct_keys(rumors),
    ensures
        put_all(Seq::empty(), rumors) == rumors,
    decreases rumors.len(),
{
    if rumors.len() == 0 {
        assert(rumors =~= Seq::<RumorView>::empty());
    } else {
        let front = rumors.drop_last();
        let last = rumors.last();
        assert(distinct_keys(front)) by {
            assert forall|i: int, j: int| 0 <= i < j < front.len() implies !((
            #[trigger] front[i]).member_id == (#[trigger] front[j]).member_id && front[i].key
                == front[j].key) by {
                assert(front[i] == rumors[i] && front[j] == rumors[j]);
            }
        }
        lemma_put_all_into_empty(front);
        assert(!has_rumor(front, last.member_id, last.key)) by {
            assert forall|i: int| 0 <= i < front.len() implies !((#[trigger] front[i]).member_id
                == last.member_id && front[i].key == last.key) by {
                assert(front[i] == rumors[i]);
                assert(last == rumors[rumors.len() - 1]);
            }
        }
        assert(front.push(last) =~= rumors);
    }
}

/// The entries that memberships have which were put into a table at `now`.
pub open spec fn entries_at(memberships: Seq<MembershipView>, now: u64) -> Seq<EntryView> {
    memberships.map_values(
        |m: MembershipView| EntryView { member: m.member, health: m.health, health_since: now },
    )
}

/// Whether no two memberships are of the same member.
pub open spec fn distinct_members(memberships: Seq<MembershipView>) -> bool {
    forall|i: int, j: int|
        0 <= i < j < memberships.len() ==> (#[trigger] memberships[i]).member.id != (
        #[trigger] memberships[j]).member.id
}

/// Putting memberships of distinct members into an empty table, one after
/// another, gives a table that holds just these memberships, in their order.
pub proof fn lemma_upsert_all_into_empty(memberships: Seq<MembershipView>, now: u64)
    requires
        distinct_members(memberships),
    ensures
        crate::member::upsert_all(Seq::empty(), memberships, now) == entries_at(memberships, now),
        entries_at(memberships, now).map_values(|e: EntryView| e.membership()) == memberships,
    decreases memberships.len(),
{
    let entries = entries_at(memberships, now);
    assert(entries.map_values(|e: EntryView| e.membership()) =~= memberships);
    if memberships.len() == 0 {
        assert(entries =~= Seq::<EntryView>::empty());
    } else {
        let front = memberships.drop_last();
        let last = memberships.last();
        assert(distinct_members(front)) by {
            assert forall|i: int, j: int| 0 <= i < j < front.len() implies (
            #[trigger] front[i]).member.id != (#[trigger] front[j]).member.id by {
                assert(front[i] == memberships[i] && front[j] == memberships[j]);
            }
        }
        lemma_upsert_all_into_empty(front, now);
        let earlier = entries_at(front, now);
        assert(!crate::member::has_member(earlier, last.member.id)) by {
            assert forall|i: int| 0 <= i < earlier.len() implies (#[trigger] earlier[i]).member.id
                != last.member.id by {
                assert(front[i] == memberships[i]);
                assert(last == memberships[memberships.len() - 1]);
            }
        }
        assert(earlier.push(
            EntryView { member: last.member, health: last.health, health_since: now },
        ) =~= entries);
    }
}

/// Tables that hold the same memberships in the same order give each
/// member the same membership.
pub proof fn lemma_same_memberships(a: Seq<EntryView>, b: Seq<EntryView>)
    requires
        distinct_ids(a),
        a.map_values(|e: EntryView| e.membership()) == b.map_values(|e: EntryView| e.membership()),
    ensures
        memberships_by_id(a) == memberships_by_id(b),
{
    let ma = a.map_values(|e: EntryView| e.membership());
    let mb = b.map_values(|e: EntryView| e.membership());
    assert(a.len() == ma.len() && b.len() == mb.len());
    assert forall|i: int| 0 <= i < a.len() implies (#[trigger] a[i]).membership() == b[i].membership() by {
        assert(ma[i] == a[i].membership());
        assert(mb[i] == b[i].membership());
    }
    assert forall|id: Seq<char>| has_member(a, id) <==> has_member(b, id) by {
        if has_member(a, id) {
            let i = index_of(a, id);
            assert(a[i].membership() == b[i].membership());
            assert(b[i].member.id == id);
        }
        if has_member(b, id) {
            let i = index_of(b, id);
            assert(a[i].membership() == b[i].membership());
            assert(a[i].member.id == id);
        }
    }
    assert forall|id: Seq<char>| has_member(a, id) implies a[index_of(a, id)].membership()
        == b[index_of(b, id)].membership() by {
        let i = index_of(a, id);
        let j = index_of(b, id);
        assert(a[j].membership() == b[j].membership());
        assert(a[j].member.id == id);
        if i < j {
            assert(a[i].member.id != a[j].member.id);
        }
        if j < i {
            assert(a[j].member.id != a[i].member.id);
        }
    }
    assert(memberships_by_id(a) =~= memberships_by_id(b));
}

/// Reading the first section of a snapshot of `server` gives the
/// memberships of its table.
#[verifier::rlimit(40)]
pub proof fn lemma_member_section_read_back(server: &Server)
    requires
        fits(server),
    ensures
        members_of(snapshot(sections_of(server)), 0) == SectionRead::Facts(
            server.member_list@.map_values(|e: EntryView| e.membership()),
        ),
{
    let sections = sections_of(server);
    let bytes = snapshot(sections);
    lemma_snapshot_header(sections);
    lemma_section_sits(sections, 0);
    let a = start_of(sections, 0);
    let b = a + sections[0].len();
    assert(section_start(bytes, 0, 0) == a);
    lemma_members_read_back(
        bytes.subrange(0, a),
        server.member_list@,
        bytes.subrange(b, bytes.len() as int),
    );
    assert(lengths_in(bytes, 0)[0] == sections[0].len());
}

/// Reading the section of `len` bytes at `a` gives `rumors` where the
/// written section of `rumors` stands there.
proof fn lemma_rumors_sit(bytes: Seq<u8>, a: int, len: int, rumors: Seq<RumorView>)
    requires
        framable(rumor_payloads(rumors)),
        all_encodable(rumors),
        len == frames(rumor_payloads(rumors)).len(),
        0 <= a,
        a + len <= bytes.len(),
        bytes == bytes.subrange(0, a) + frames(rumor_payloads(rumors)) + bytes.subrange(
            a + len,
            bytes.len() as int,
        ),
    ensures
        rumors_in(bytes, a, len) == SectionRead::Facts(rumors),
{
    lemma_rumors_read_back(bytes.subrange(0, a), rumors, bytes.subrange(a + len, bytes.len() as int));
}

/// Reading section `k` of a snapshot gives `rumors` where that section is
/// the written section of `rumors`.
#[verifier::rlimit(40)]
proof fn lemma_rumors_of_section(sections: Seq<Seq<u8>>, k: int, rumors: Seq<RumorView>)
    requires
        sections.len() == 7,
        measurable(sections),
        1 <= k <= 6,
        sections[k] == frames(rumor_payloads(rumors)),
        framable(rumor_payloads(rumors)),
        all_encodable(rumors),
    ensures
        rumors_of(snapshot(sections), 0, k) == SectionRead::Facts(rumors),
{
    let bytes = snapshot(sections);
    lemma_snapshot_header(sections);
    lemma_section_sits(sections, k);
    let a = start_of(sections, k);
    assert(section_start(bytes, 0, k) == a);
    assert(sections[k].len() <= u64::MAX);
    assert(lengths_of(sections)[k] == sections[k].len() as u64);
    assert(lengths_in(bytes, 0)[k] == sections[k].len());
    lemma_rumors_sit(bytes, a, sections[k].len() as int, rumors);
}

/// Reading section `k` of a snapshot of `server` gives the rumors of the
/// store of that section's kind.
pub proof fn lemma_rumor_section_read_back(server: &Server, k: int)
    requires
        fits(server),
        1 <= k <= 6,
    ensures
        rumors_of(snapshot(sections_of(server)), 0, k) == SectionRead::Facts(
            server.rumors(kind_at(k)),
        ),
{
    let sections = sections_of(server);
    let kind = kind_at(k);
    let rumors = server.rumors(kind);
    assert(kind != FactType::Membership);
    assert(framable(rumor_payloads(rumors)) && all_encodable(rumors));
    assert(sections[k] == frames(rumor_payloads(rumors))) by {
        if k == 1 {
            assert(sections[1] == frames(rumor_payloads(server.rumors(FactType::Service))));
        } else if k == 2 {
            assert(sections[2] == frames(rumor_payloads(server.rumors(FactType::ServiceConfig))));
        } else if k == 3 {
            assert(sections[3] == frames(rumor_payloads(server.rumors(FactType::ServiceFile))));
        } else if k == 4 {
            assert(sections[4] == frames(rumor_payloads(server.rumors(FactType::Election))));
        } else if k == 5 {
            assert(sections[5] == frames(rumor_payloads(server.rumors(FactType::ElectionUpdate))));
        } else {
            assert(sections[6] == frames(rumor_payloads(server.rumors(FactType::Departure))));
        }
    }
    lemma_rumors_of_section(sections, k, rumors);
}

/// Round trip: a snapshot that was written of `server` can be read, and a
/// state without members and rumors into which it is read then holds the
/// members of `server`, each with its health, and the rumors of `server`.
#[verifier::rlimit(40)]
pub proof fn lemma_write_then_load(server: &Server, fresh: &Server, restored: &Server, now: u64)
    requires
        server.well_formed(),
        fits(server),
        fresh.member_list@.len() == 0,
        forall|kind: FactType| (#[trigger] fresh.rumors(kind)).len() == 0,
        put_in(
            fresh,
            restored,
            snapshot(sections_of(server)),
            0,
            now,
            sections_loaded(snapshot(sections_of(server)), 0),
        ),
    ensures
        header_failure(snapshot(sections_of(server)), 0) is None,
        first_failure(snapshot(sections_of(server)), 0, 0, 7) is None,
        sections_read(snapshot(sections_of(server))[0]) == 7,
        sections_loaded(snapshot(sections_of(server)), 0) == 7,
        restored.member_list@.map_values(|e: EntryView| e.membership())
            == server.member_list@.map_values(|e: EntryView| e.membership()),
        memberships_by_id(restored.member_list@) == memberships_by_id(server.member_list@),
        forall|kind: FactType| #[trigger] restored.rumors(kind) == server.rumors(kind),
{
    let sections = sections_of(server);
    let bytes = snapshot(sections);
    lemma_snapshot_header(sections);
    lemma_member_section_read_back(server);
    lemma_rumor_section_read_back(server, 1);
    lemma_rumor_section_read_back(server, 2);
    lemma_rumor_section_read_back(server, 3);
    lemma_rumor_section_read_back(server, 4);
    lemma_rumor_section_read_back(server, 5);
    lemma_rumor_section_read_back(server, 6);
    assert(section_failure(bytes, 0, 0) is None);
    assert(section_failure(bytes, 0, 1) is None);
    assert(section_failure(bytes, 0, 2) is None);
    assert(section_failure(bytes, 0, 3) is None);
    assert(section_failure(bytes, 0, 4) is None);
    assert(section_failure(bytes, 0, 5) is None);
    assert(section_failure(bytes, 0, 6) is None);
    assert(first_failure(bytes, 0, 0, 7) is None) by {
        reveal_with_fuel(first_failure, 8);
    }
    let memberships = server.member_list@.map_values(|e: EntryView| e.membership());
    assert(distinct_members(memberships)) by {
        assert forall|i: int, j: int| 0 <= i < j < memberships.len() implies (
        #[trigger] memberships[i]).member.id != (#[trigger] memberships[j]).member.id by {
            assert(server.member_list@[i].member.id != server.member_list@[j].member.id);
        }
    }
    lemma_upsert_all_into_empty(memberships, now);
    assert(fresh.member_list@ =~= Seq::<EntryView>::empty());
    assert(restored.member_list@ == entries_at(memberships, now));
    assert(distinct_ids(server.member_list@));
    lemma_same_memberships(server.member_list@, restored.member_list@);
    assert forall|kind: FactType| #[trigger] restored.rumors(kind) == server.rumors(kind) by {
        if kind != FactType::Membership {
            let k = kind.spec_position();
            assert(kind_at(k) == kind);
            assert(fresh.rumors(kind) =~= Seq::<RumorView>::empty());
            lemma_put_all_into_empty(server.rumors(kind));
        }
    }
}

/// Section-length fidelity: the length that the header of a written
/// snapshot records for the section of `kind` is the sum, over the frames
/// of that section, of eight bytes and the payload's length. Each section
/// starts where the one before it ends, and the last one ends with the
/// snapshot: a load reads neither more nor less than was written.
pub proof fn lemma_section_length_fidelity(server: &Server, kind: FactType)
    requires
        fits(server),
    ensures
        lengths_in(snapshot(sections_of(server)), 0)[kind.spec_position()] == frames_len(
            payloads_of(server, kind),
        ),
        section_start(snapshot(sections_of(server)), 0, kind.spec_position() + 1) == section_start(
            snapshot(sections_of(server)),
            0,
            kind.spec_position(),
        ) + frames_len(payloads_of(server, kind)),
        section_start(snapshot(sections_of(server)), 0, 7) == snapshot(sections_of(server)).len(),
{
    let sections = sections_of(server);
    let k = kind.spec_position();
    lemma_snapshot_header(sections);
    lemma_frames_len(payloads_of(server, kind));
    assert(sections[k] == frames(payloads_of(server, kind)));
    assert(lengths_of(sections)[k] == sections[k].len() as u64);
    assert(start_of(sections, k + 1) == start_of(sections, k) + sections[k].len());
    assert(section_start(snapshot(sections), 0, k) == start_of(sections, k));
    assert(section_start(snapshot(sections), 0, k + 1) == start_of(sections, k + 1));
    assert(section_start(snapshot(sections), 0, 7) == start_of(sections, 7));
}

/// The first section that cannot be read is one of those that are tried.
pub proof fn lemma_first_failure_within(bytes: Seq<u8>, at: int, k: int, n: int)
    ensures
        first_failure(bytes, at, k, n) matches Some((j, _, _)) ==> k <= j < n,
    decreases n - k,
{
    if k < n {
        lemma_first_failure_within(bytes, at, k + 1, n);
    }
}

/// Backward compatibility: of a snapshot of version 1 no departure section
/// is read. At most the six sections of that version are put in, and the
/// departures are after the load what they were before it.
pub proof fn lemma_version_1_has_no_departures(
    before: &Server,
    after: &Server,
    bytes: Seq<u8>,
    at: int,
    now: u64,
)
    requires
        bytes[at] == 1,
        put_in(before, after, bytes, at, now, sections_loaded(bytes, at)),
    ensures
        sections_loaded(bytes, at) <= 6,
        after.rumors(FactType::Departure) == before.rumors(FactType::Departure),
{
    lemma_first_failure_within(bytes, at, 0, 6);
}

} // verus!
