//! The snapshot file: a version byte, a header of section lengths, and one
//! section of frames for each kind of fact.
//!
//! The functions here work on the bytes of the file. Reading the bytes from
//! disk, and publishing written bytes in one step, is left to the caller.

use crate::error::{DecodeFailure, Error, IoFailure};
use crate::fact::FactType;
use crate::frame::{
    framable, frame, frames, lemma_frames_push, parse_frames, read_frames, views, write_frame,
    Parsed,
};
use crate::header::{
    body_bytes, declared_lengths, declared_size, lemma_table_entry, spec_body_len, table, Header,
    HEADER_VERSION, HEADER_VERSION_2_SIZE,
};
use crate::member::{
    decode_membership, encode_membership, membership_views, upsert_all, EntryView, MemberList,
    Membership, MembershipView,
};
use crate::reader::ByteReader;
use crate::rumor::{
    all_encodable, decode_rumor, distinct_keys, encode_rumor, put_all, rumor_views, Rumor,
    RumorStore, RumorView,
};
use crate::server::Server;
use crate::text::copy_string;
use vstd::prelude::*;

verus! {

/// The payloads of the memberships of a table, in the table's order.
pub open spec fn member_payloads(entries: Seq<EntryView>) -> Seq<Seq<u8>> {
    entries.map_values(|e: EntryView| encode_membership(e.membership()))
}

/// The payloads of the rumors of a store, in the store's order.
pub open spec fn rumor_payloads(rumors: Seq<RumorView>) -> Seq<Seq<u8>> {
    rumors.map_values(|r: RumorView| encode_rumor(r))
}

/// The payloads of the facts of `kind` that `server` holds, in their order.
pub open spec fn payloads_of(server: &Server, kind: FactType) -> Seq<Seq<u8>> {
    if kind == FactType::Membership {
        member_payloads(server.member_list@)
    } else {
        rumor_payloads(server.rumors(kind))
    }
}

/// The section of `kind` in a snapshot of `server`.
pub open spec fn section_of(server: &Server, kind: FactType) -> Seq<u8> {
    frames(payloads_of(server, kind))
}

/// The seven sections of a snapshot of `server`, in their order.
pub open spec fn sections_of(server: &Server) -> Seq<Seq<u8>> {
    seq![
        section_of(server, FactType::Membership),
        section_of(server, FactType::Service),
        section_of(server, FactType::ServiceConfig),
        section_of(server, FactType::ServiceFile),
        section_of(server, FactType::Election),
        section_of(server, FactType::ElectionUpdate),
        section_of(server, FactType::Departure),
    ]
}

/// The lengths of the sections.
pub open spec fn lengths_of(sections: Seq<Seq<u8>>) -> Seq<u64> {
    sections.map_values(|s: Seq<u8>| s.len() as u64)
}

/// Whether the length of each section can be written in eight bytes.
pub open spec fn measurable(sections: Seq<Seq<u8>>) -> bool {
    forall|k: int| 0 <= k < sections.len() ==> (#[trigger] sections[k]).len() <= u64::MAX
}

/// Whether a snapshot of `server` can be written: the length of each
/// section, of each payload and of each text of a rumor can be written in
/// eight bytes. Whatever memory holds meets this.
pub open spec fn fits(server: &Server) -> bool {
    &&& measurable(sections_of(server))
    &&& framable(member_payloads(server.member_list@))
    &&& forall|kind: FactType|
        kind != FactType::Membership ==> framable(rumor_payloads(#[trigger] server.rumors(kind)))
            && all_encodable(server.rumors(kind))
}

/// The seven sections, one after another.
pub open spec fn all_sections(sections: Seq<Seq<u8>>) -> Seq<u8> {
    sections[0] + sections[1] + sections[2] + sections[3] + sections[4] + sections[5]
        + sections[6]
}

/// The snapshot with the given seven sections: the version byte 2, the
/// header body with the sections' lengths, and the sections.
pub open spec fn snapshot(sections: Seq<Seq<u8>>) -> Seq<u8> {
    seq![HEADER_VERSION] + body_bytes(lengths_of(sections)) + all_sections(sections)
}

/// What reading a section of facts gives: the facts, or the index of the
/// first frame that cannot be read or decoded and why.
pub enum SectionRead<T> {
    Facts(Seq<T>),
    Failed(nat, DecodeFailure),
}

impl<T> SectionRead<T> {
    /// The facts that were read, or none after a failure.
    pub open spec fn facts(self) -> Seq<T> {
        match self {
            SectionRead::Facts(facts) => facts,
            SectionRead::Failed(_, _) => Seq::empty(),
        }
    }
}

/// Whether the frame `i` is the first whose payload encodes no membership.
pub open spec fn first_malformed_member(payloads: Seq<Seq<u8>>, i: int) -> bool {
    &&& 0 <= i < payloads.len()
    &&& decode_membership(payloads[i]) is None
    &&& forall|k: int| 0 <= k < i ==> decode_membership(#[trigger] payloads[k]) is Some
}

/// Whether the frame `i` is the first whose payload encodes no rumor.
pub open spec fn first_malformed_rumor(payloads: Seq<Seq<u8>>, i: int) -> bool {
    &&& 0 <= i < payloads.len()
    &&& decode_rumor(payloads[i]) is None
    &&& forall|k: int| 0 <= k < i ==> decode_rumor(#[trigger] payloads[k]) is Some
}

/// The memberships in the section of `len` bytes at `pos`: every frame
/// must be whole and must encode a membership.
pub open spec fn members_in(bytes: Seq<u8>, pos: int, len: int) -> SectionRead<MembershipView> {
    match parse_frames(bytes, pos, len) {
        Parsed::Failure(i, why) => SectionRead::Failed(i, why),
        Parsed::Frames(payloads) => if exists|i: int| first_malformed_member(payloads, i) {
            SectionRead::Failed(
                (choose|i: int| first_malformed_member(payloads, i)) as nat,
                DecodeFailure::MalformedPayload,
            )
        } else {
            SectionRead::Facts(payloads.map_values(|p: Seq<u8>| decode_membership(p)->0))
        },
    }
}

/// The rumors in the section of `len` bytes at `pos`: every frame must be
/// whole and must encode a rumor.
pub open spec fn rumors_in(bytes: Seq<u8>, pos: int, len: int) -> SectionRead<RumorView> {
    match parse_frames(bytes, pos, len) {
        Parsed::Failure(i, why) => SectionRead::Failed(i, why),
        Parsed::Frames(payloads) => if exists|i: int| first_malformed_rumor(payloads, i) {
            SectionRead::Failed(
                (choose|i: int| first_malformed_rumor(payloads, i)) as nat,
                DecodeFailure::MalformedPayload,
            )
        } else {
            SectionRead::Facts(payloads.map_values(|p: Seq<u8>| decode_rumor(p)->0))
        },
    }
}

/// The header body of the snapshot whose version byte stands at `at`.
pub open spec fn header_body(bytes: Seq<u8>, at: int) -> Seq<u8> {
    bytes.subrange(at + 1, at + 1 + spec_body_len(bytes[at]))
}

/// Why the header of the snapshot whose version byte stands at `at` cannot
/// be read, if it cannot: the bytes end before the version byte or inside
/// the header body, or the first section would start beyond any offset.
pub open spec fn header_failure(bytes: Seq<u8>, at: int) -> Option<IoFailure> {
    if at + 1 > bytes.len() {
        Some(IoFailure::UnexpectedEof)
    } else if at + 1 + spec_body_len(bytes[at]) > bytes.len() {
        Some(IoFailure::UnexpectedEof)
    } else if 1 + declared_size(header_body(bytes, at), bytes[at]) > u64::MAX {
        Some(IoFailure::InvalidSeek)
    } else {
        None
    }
}

/// The seven section lengths that the header declares.
pub open spec fn lengths_in(bytes: Seq<u8>, at: int) -> Seq<u64> {
    declared_lengths(header_body(bytes, at), bytes[at])
}

/// The offset at which section `k` starts: the first one byte behind the
/// size that the header declares for its body, each other where the one
/// before it ends.
pub open spec fn section_start(bytes: Seq<u8>, at: int, k: int) -> int
    decreases k,
{
    if k <= 0 {
        1 + declared_size(header_body(bytes, at), bytes[at])
    } else {
        section_start(bytes, at, k - 1) + lengths_in(bytes, at)[k - 1]
    }
}

/// The number of sections that are read: the departures only from
/// version 2 on.
pub open spec fn sections_read(version: u8) -> int {
    if version >= 2 {
        7
    } else {
        6
    }
}

/// The kind of fact in section `k`.
pub open spec fn kind_at(k: int) -> FactType {
    if k <= 0 {
        FactType::Membership
    } else if k == 1 {
        FactType::Service
    } else if k == 2 {
        FactType::ServiceConfig
    } else if k == 3 {
        FactType::ServiceFile
    } else if k == 4 {
        FactType::Election
    } else if k == 5 {
        FactType::ElectionUpdate
    } else {
        FactType::Departure
    }
}

/// The memberships of the first section.
pub open spec fn members_of(bytes: Seq<u8>, at: int) -> SectionRead<MembershipView> {
    members_in(bytes, section_start(bytes, at, 0), lengths_in(bytes, at)[0] as int)
}

/// The rumors of section `k`, which is one of the six behind the first.
pub open spec fn rumors_of(bytes: Seq<u8>, at: int, k: int) -> SectionRead<RumorView> {
    rumors_in(bytes, section_start(bytes, at, k), lengths_in(bytes, at)[k] as int)
}

/// Why section `k` cannot be read, if it cannot.
pub open spec fn section_failure(bytes: Seq<u8>, at: int, k: int) -> Option<(nat, DecodeFailure)> {
    if k <= 0 {
        match members_of(bytes, at) {
            SectionRead::Facts(_) => None,
            SectionRead::Failed(i, why) => Some((i, why)),
        }
    } else {
        match rumors_of(bytes, at, k) {
            SectionRead::Facts(_) => None,
            SectionRead::Failed(i, why) => Some((i, why)),
        }
    }
}

/// The first of the sections `k` to `n - 1` that cannot be read, with the
/// index of the frame and why, if there is one.
pub open spec fn first_failure(bytes: Seq<u8>, at: int, k: int, n: int) -> Option<
    (int, nat, DecodeFailure),
>
    decreases n - k,
{
    if k >= n {
        None
    } else {
        match section_failure(bytes, at, k) {
            Some((i, why)) => Some((k, i, why)),
            None => first_failure(bytes, at, k + 1, n),
        }
    }
}

/// The number of sections whose facts a load puts in: every section
/// before the first that cannot be read, and none where the header cannot
/// be read.
pub open spec fn sections_loaded(bytes: Seq<u8>, at: int) -> int {
    if header_failure(bytes, at) is Some {
        0
    } else {
        match first_failure(bytes, at, 0, sections_read(bytes[at])) {
            Some((k, _, _)) => k,
            None => sections_read(bytes[at]),
        }
    }
}

/// Whether `after` is `before` with the facts of the first `k` sections
/// put in, each section's facts in their order, and nothing else changed.
/// A membership that is put in has its health from `now` on.
pub open spec fn put_in(
    before: &Server,
    after: &Server,
    bytes: Seq<u8>,
    at: int,
    now: u64,
    k: int,
) -> bool {
    &&& after.member_list@ == if k > 0 {
        upsert_all(before.member_list@, members_of(bytes, at).facts(), now)
    } else {
        before.member_list@
    }
    &&& forall|kind: FactType|
        kind != FactType::Membership ==> #[trigger] after.rumors(kind) == if kind.spec_position()
            < k {
            put_all(before.rumors(kind), rumors_of(bytes, at, kind.spec_position()).facts())
        } else {
            before.rumors(kind)
        }
}

/// A snapshot file: its path, its bytes with the position of the next read,
/// and its header, once that was read.
pub struct DatFile {
    header: Header,
    header_size: u64,
    path: String,
    reader: ByteReader,
}

impl DatFile {
    /// The header that was read, or an empty one.
    pub closed spec fn spec_header(&self) -> Header {
        self.header
    }

    /// The size that the header declared for its body, or 0.
    pub closed spec fn spec_header_size(&self) -> u64 {
        self.header_size
    }

    /// The path of the file.
    pub closed spec fn spec_path(&self) -> Seq<char> {
        self.path@
    }

    /// The bytes of the file.
    pub closed spec fn bytes(&self) -> Seq<u8> {
        self.reader.bytes()
    }

    /// The offset of the next byte to be read.
    pub closed spec fn position(&self) -> nat {
        self.reader.position()
    }

    /// Whether `other` is this file with nothing changed but the position.
    pub open spec fn moved(&self, other: &DatFile) -> bool {
        &&& self.spec_path() == other.spec_path()
        &&& self.bytes() == other.bytes()
        &&& self.spec_header() == other.spec_header()
        &&& self.spec_header_size() == other.spec_header_size()
    }

    /// The snapshot file at `data_path` that holds `contents`, with its
    /// header yet to be read.
    pub fn read(data_path: &str, contents: Vec<u8>) -> (file: Self)
        ensures
            file.spec_path() == data_path@,
            file.bytes() == contents@,
            file.position() == 0,
            file.spec_header()@ == Map::<Seq<char>, u64>::empty(),
            file.spec_header_size() == 0,
    {
        DatFile {
            header: Header::default(),
            header_size: 0,
            path: data_path.to_owned(),
            reader: ByteReader::new(contents),
        }
    }

    /// The snapshot file at `data_path`, which was opened, or created
    /// empty, and found to hold `contents`. An empty file is filled at
    /// once with a snapshot of `server`, so that it is never left without
    /// a header: the bytes come back for the caller to publish.
    pub fn read_or_create(data_path: String, contents: Vec<u8>, server: &Server) -> (r: (
        Self,
        Option<Vec<u8>>,
    ))
        ensures
            r.0.spec_path() == data_path@,
            r.0.position() == 0,
            r.0.spec_header()@ == Map::<Seq<char>, u64>::empty(),
            r.0.spec_header_size() == 0,
            contents@.len() > 0 ==> r.1 is None && r.0.bytes() == contents@,
            contents@.len() == 0 ==> (r.1 matches Some(written) && written@ == snapshot(
                sections_of(server),
            ) && r.0.bytes() == written@),
    {
        let size = contents.len();
        let mut dat_file = DatFile {
            path: data_path,
            header_size: 0,
            header: Header::default(),
            reader: ByteReader::new(contents),
        };
        if size == 0 {
            let written = dat_file.write(server);
            dat_file.reader = ByteReader::new(vstd::slice::slice_to_vec(written.as_slice()));
            (dat_file, Some(written))
        } else {
            (dat_file, None)
        }
    }

    /// The path of the file.
    pub fn path(&self) -> (path: &String)
        ensures
            path@ == self.spec_path(),
    {
        &self.path
    }

    /// The offset of the first section: one byte for the version, then
    /// the size that the header declares for its body. There is none where
    /// no file offset can hold the sum.
    fn member_offset(&self) -> (offset: Option<u64>)
        ensures
            match offset {
                Some(at) => at == 1 + self.spec_header_size(),
                None => 1 + self.spec_header_size() > u64::MAX,
            },
    {
        self.header_size.checked_add(1)
    }

    /// Reads the version byte and the header that follows it, and moves to
    /// the start of the first section. Returns the version byte.
    pub fn read_header(&mut self) -> (r: Result<u8, Error>)
        ensures
            final(self).bytes() == old(self).bytes(),
            final(self).spec_path() == old(self).spec_path(),
            match header_failure(old(self).bytes(), old(self).position() as int) {
                Some(failure) => r matches Err(Error::DatFileIO(path, why)) && path@ == old(
                    self,
                ).spec_path() && why == failure,
                None => {
                    let at = old(self).position() as int;
                    &&& r == Ok::<u8, Error>(old(self).bytes()[at])
                    &&& final(self).spec_header()@ == table(lengths_in(old(self).bytes(), at))
                    &&& final(self).spec_header().complete()
                    &&& final(self).spec_header().lengths() == lengths_in(old(self).bytes(), at)
                    &&& final(self).spec_header_size() == declared_size(
                        header_body(old(self).bytes(), at),
                        old(self).bytes()[at],
                    )
                    &&& final(self).position() == section_start(old(self).bytes(), at, 0)
                },
            },
    {
        let ghost at = self.reader.position() as int;
        let version_buf = match self.reader.read_exact(1) {
            Ok(buf) => buf,
            Err(why) => {
                return Err(Error::DatFileIO(copy_string(&self.path), why));
            },
        };
        let version: u8 = version_buf[0];
        assert(version == old(self).bytes()[at]);
        let (header_size, real_header) = match Header::from_file(&mut self.reader, version) {
            Ok(read) => read,
            Err(why) => {
                return Err(Error::DatFileIO(copy_string(&self.path), why));
            },
        };
        proof {
            lemma_header_of_table(real_header, lengths_in(old(self).bytes(), at));
        }
        self.header = real_header;
        self.header_size = header_size;
        let start = match self.member_offset() {
            Some(start) => start,
            None => {
                return Err(Error::DatFileIO(copy_string(&self.path), IoFailure::InvalidSeek));
            },
        };
        self.reader.seek(start);
        Ok(version)
    }

    /// Reads the section of `offset` bytes that starts at the position and
    /// returns the payloads of its frames. `kind` names the section in the
    /// error.
    pub fn read_and_process(&mut self, offset: u64, kind: FactType) -> (r: Result<
        Vec<Vec<u8>>,
        Error,
    >)
        ensures
            final(self).moved(old(self)),
            match parse_frames(old(self).bytes(), old(self).position() as int, offset as int) {
                Parsed::Frames(payloads) => {
                    &&& r matches Ok(read)
                    &&& views(read@) == payloads
                    &&& final(self).position() == old(self).position() + offset
                },
                Parsed::Failure(index, why) => r == Err::<Vec<Vec<u8>>, Error>(
                    Error::Decode(kind, index as u64, why),
                ),
            },
    {
        match read_frames(&mut self.reader, offset) {
            Ok(read) => Ok(read),
            Err((index, why)) => Err(Error::Decode(kind, index, why)),
        }
    }

    /// Reads the membership section, which starts at the position and has
    /// the length that the header gives it.
    pub fn read_members(&mut self) -> (r: Result<Vec<Membership>, Error>)
        requires
            old(self).spec_header().knows(FactType::Membership),
        ensures
            final(self).moved(old(self)),
            match members_in(
                old(self).bytes(),
                old(self).position() as int,
                old(self).spec_header().length_of(FactType::Membership) as int,
            ) {
                SectionRead::Facts(memberships) => {
                    &&& r matches Ok(read)
                    &&& membership_views(read@) == memberships
                    &&& final(self).position() == old(self).position() + old(
                        self,
                    ).spec_header().length_of(FactType::Membership)
                },
                SectionRead::Failed(index, why) => r == Err::<Vec<Membership>, Error>(
                    Error::Decode(FactType::Membership, index as u64, why),
                ),
            },
    {
        let offset = self.header.member_offset();
        let read = match self.read_and_process(offset, FactType::Membership) {
            Ok(read) => read,
            Err(e) => {
                return Err(e);
            },
        };
        let ghost payloads = views(read@);
        let mut members: Vec<Membership> = Vec::new();
        let mut i: usize = 0;
        while i < read.len()
            invariant
                i <= read.len(),
                payloads == views(read@),
                self.moved(old(self)),
                parse_frames(
                    old(self).bytes(),
                    old(self).position() as int,
                    old(self).spec_header().length_of(FactType::Membership) as int,
                ) == Parsed::Frames(payloads),
                forall|k: int| 0 <= k < i ==> decode_membership(#[trigger] payloads[k]) is Some,
                membership_views(members@) == payloads.take(i as int).map_values(
                    |p: Seq<u8>| decode_membership(p)->0,
                ),
            decreases read.len() - i,
        {
            let ghost earlier = members@;
            match Membership::from_bytes(read[i].as_slice()) {
                Ok(membership) => {
                    assert(decode_membership(payloads[i as int]) == Some(membership@));
                    members.push(membership);
                    assert(payloads.take(i + 1) =~= payloads.take(i as int).push(payloads[i as int]));
                    assert(membership_views(members@) =~= membership_views(earlier).push(
                        membership@,
                    ));
                },
                Err(why) => {
                    proof {
                        assert(first_malformed_member(payloads, i as int));
                        let c = choose|c: int| first_malformed_member(payloads, c);
                        assert(first_malformed_member(payloads, c));
                        assert(c == i);
                    }
                    return Err(Error::Decode(FactType::Membership, i as u64, why));
                },
            }
            i += 1;
        }
        assert(payloads.take(i as int) =~= payloads);
        assert(!exists|c: int| first_malformed_member(payloads, c));
        Ok(members)
    }

    /// Reads the section of the rumors of `kind`, which starts at the
    /// position and has the length that the header gives it.
    pub fn read_rumors(&mut self, kind: FactType) -> (r: Result<Vec<Rumor>, Error>)
        requires
            old(self).spec_header().knows(kind),
        ensures
            final(self).moved(old(self)),
            match rumors_in(
                old(self).bytes(),
                old(self).position() as int,
                old(self).spec_header().length_of(kind) as int,
            ) {
                SectionRead::Facts(rumors) => {
                    &&& r matches Ok(read)
                    &&& rumor_views(read@) == rumors
                    &&& final(self).position() == old(self).position() + old(
                        self,
                    ).spec_header().length_of(kind)
                },
                SectionRead::Failed(index, why) => r == Err::<Vec<Rumor>, Error>(
                    Error::Decode(kind, index as u64, why),
                ),
            },
    {
        let offset = self.header.offset_for_rumor(kind.message_id());
        let read = match self.read_and_process(offset, kind) {
            Ok(read) => read,
            Err(e) => {
                return Err(e);
            },
        };
        let ghost payloads = views(read@);
        let mut rumors: Vec<Rumor> = Vec::new();
        let mut i: usize = 0;
        while i < read.len()
            invariant
                i <= read.len(),
                payloads == views(read@),
                self.moved(old(self)),
                parse_frames(
                    old(self).bytes(),
                    old(self).position() as int,
                    old(self).spec_header().length_of(kind) as int,
                ) == Parsed::Frames(payloads),
                forall|k: int| 0 <= k < i ==> decode_rumor(#[trigger] payloads[k]) is Some,
                rumor_views(rumors@) == payloads.take(i as int).map_values(
                    |p: Seq<u8>| decode_rumor(p)->0,
                ),
            decreases read.len() - i,
        {
            let ghost earlier = rumors@;
            match Rumor::from_bytes(read[i].as_slice()) {
                Ok(rumor) => {
                    assert(decode_rumor(payloads[i as int]) == Some(rumor@));
                    rumors.push(rumor);
                    assert(payloads.take(i + 1) =~= payloads.take(i as int).push(payloads[i as int]));
                    assert(rumor_views(rumors@) =~= rumor_views(earlier).push(rumor@));
                },
                Err(why) => {
                    proof {
                        assert(first_malformed_rumor(payloads, i as int));
                        let c = choose|c: int| first_malformed_rumor(payloads, c);
                        assert(first_malformed_rumor(payloads, c));
                        assert(c == i);
                    }
                    return Err(Error::Decode(kind, i as u64, why));
                },
            }
            i += 1;
        }
        assert(payloads.take(i as int) =~= payloads);
        assert(!exists|c: int| first_malformed_rumor(payloads, c));
        Ok(rumors)
    }

    /// Reads the membership section and puts each membership into the
    /// table of `server`, with the health that it names from `now` on.
    fn load_members(&mut self, server: &mut Server, now: u64) -> (r: Result<(), Error>)
        requires
            old(self).spec_header().knows(FactType::Membership),
        ensures
            final(self).moved(old(self)),
            match members_in(
                old(self).bytes(),
                old(self).position() as int,
                old(self).spec_header().length_of(FactType::Membership) as int,
            ) {
                SectionRead::Facts(memberships) => {
                    &&& r is Ok
                    &&& final(server).member_list@ == upsert_all(
                        old(server).member_list@,
                        memberships,
                        now,
                    )
                    &&& final(server).same_but(old(server), FactType::Membership)
                    &&& final(self).position() == old(self).position() + old(
                        self,
                    ).spec_header().length_of(FactType::Membership)
                },
                SectionRead::Failed(index, why) => {
                    &&& r == Err::<(), Error>(
                        Error::Decode(FactType::Membership, index as u64, why),
                    )
                    &&& final(server).same_as(old(server))
                },
            },
    {
        let members = match self.read_members() {
            Ok(members) => members,
            Err(e) => {
                return Err(e);
            },
        };
        let ghost read = members@;
        for membership in it: members
            invariant
                it.seq() == read,
                server.member_list@ == upsert_all(
                    old(server).member_list@,
                    membership_views(read.take(it.index() as int)),
                    now,
                ),
                server.same_but(old(server), FactType::Membership),
        {
            proof {
                let next = membership_views(read.take(it.index() + 1));
                assert(next.drop_last() =~= membership_views(read.take(it.index() as int)));
                assert(next.last() == membership@);
            }
            server.insert_member(membership.member, membership.health, now);
        }
        assert(read.take(read.len() as int) =~= read);
        Ok(())
    }

    /// Reads the section of the rumors of `kind` and puts each rumor into
    /// its store in `server`.
    fn load_rumors(&mut self, server: &mut Server, kind: FactType) -> (r: Result<(), Error>)
        requires
            kind != FactType::Membership,
            old(self).spec_header().knows(kind),
        ensures
            final(self).moved(old(self)),
            match rumors_in(
                old(self).bytes(),
                old(self).position() as int,
                old(self).spec_header().length_of(kind) as int,
            ) {
                SectionRead::Facts(rumors) => {
                    &&& r is Ok
                    &&& final(server).rumors(kind) == put_all(old(server).rumors(kind), rumors)
                    &&& final(server).same_but(old(server), kind)
                    &&& final(self).position() == old(self).position() + old(
                        self,
                    ).spec_header().length_of(kind)
                },
                SectionRead::Failed(index, why) => {
                    &&& r == Err::<(), Error>(Error::Decode(kind, index as u64, why))
                    &&& final(server).same_as(old(server))
                },
            },
    {
        let rumors = match self.read_rumors(kind) {
            Ok(rumors) => rumors,
            Err(e) => {
                return Err(e);
            },
        };
        let ghost read = rumors@;
        for rumor in it: rumors
            invariant
                kind != FactType::Membership,
                it.seq() == read,
                server.rumors(kind) == put_all(
                    old(server).rumors(kind),
                    rumor_views(read.take(it.index() as int)),
                ),
                server.same_but(old(server), kind),
        {
            proof {
                let next = rumor_views(read.take(it.index() + 1));
                assert(next.drop_last() =~= rumor_views(read.take(it.index() as int)));
                assert(next.last() == rumor@);
            }
            server.insert_rumor(kind, rumor);
        }
        assert(read.take(read.len() as int) =~= read);
        Ok(())
    }

    /// Restores `server` from the snapshot: reads the version byte and the
    /// header, then each section in its order, and puts the facts of a
    /// section in once the whole section was read. The departures are read
    /// only from version 2 on. The first section that cannot be read ends
    /// the load: what the sections before it held stays put in.
    #[verifier::rlimit(40)]
    pub fn read_into_mlr(&mut self, server: &mut Server, now: u64) -> (r: Result<(), Error>)
        ensures
            final(self).bytes() == old(self).bytes(),
            final(self).spec_path() == old(self).spec_path(),
            header_failure(old(self).bytes(), old(self).position() as int) is None ==> {
                &&& final(self).spec_header()@ == table(
                    lengths_in(old(self).bytes(), old(self).position() as int),
                )
                &&& final(self).spec_header_size() == declared_size(
                    header_body(old(self).bytes(), old(self).position() as int),
                    old(self).bytes()[old(self).position() as int],
                )
            },
            put_in(
                old(server),
                final(server),
                old(self).bytes(),
                old(self).position() as int,
                now,
                sections_loaded(old(self).bytes(), old(self).position() as int),
            ),
            match header_failure(old(self).bytes(), old(self).position() as int) {
                Some(failure) => r matches Err(Error::DatFileIO(path, why)) && path@ == old(
                    self,
                ).spec_path() && why == failure,
                None => match first_failure(
                    old(self).bytes(),
                    old(self).position() as int,
                    0,
                    sections_read(old(self).bytes()[old(self).position() as int]),
                ) {
                    Some((k, index, why)) => r == Err::<(), Error>(
                        Error::Decode(kind_at(k), index as u64, why),
                    ),
                    None => r is Ok,
                },
            },
    {
        let ghost bytes = self.bytes();
        let ghost at = self.position() as int;
        let version = match self.read_header() {
            Ok(version) => version,
            Err(e) => {
                return Err(e);
            },
        };
        let ghost n = sections_read(version);
        let ghost lengths = lengths_in(bytes, at);
        proof {
            assert(lengths.len() == 7);
        }
        match self.load_members(server, now) {
            Ok(()) => {},
            Err(e) => {
                return Err(e);
            },
        }
        let ghost s1 = *server;
        proof {
            assert(first_failure(bytes, at, 0, n) == first_failure(bytes, at, 1, n));
            assert(put_in(old(server), server, bytes, at, now, 1));
        }
        match self.load_stage(server, FactType::Service, Ghost(at), Ghost(1)) {
            Ok(()) => {},
            Err(e) => {
                return Err(e);
            },
        }
        proof {
            assert(first_failure(bytes, at, 1, n) == first_failure(bytes, at, 2, n));
            lemma_put_in_next(old(server), &s1, server, bytes, at, now, 1);
        }
        let ghost s2 = *server;
        match self.load_stage(server, FactType::ServiceConfig, Ghost(at), Ghost(2)) {
            Ok(()) => {},
            Err(e) => {
                return Err(e);
            },
        }
        proof {
            assert(first_failure(bytes, at, 2, n) == first_failure(bytes, at, 3, n));
            lemma_put_in_next(old(server), &s2, server, bytes, at, now, 2);
        }
        let ghost s3 = *server;
        match self.load_stage(server, FactType::ServiceFile, Ghost(at), Ghost(3)) {
            Ok(()) => {},
            Err(e) => {
                return Err(e);
            },
        }
        proof {
            assert(first_failure(bytes, at, 3, n) == first_failure(bytes, at, 4, n));
            lemma_put_in_next(old(server), &s3, server, bytes, at, now, 3);
        }
        let ghost s4 = *server;
        match self.load_stage(server, FactType::Election, Ghost(at), Ghost(4)) {
            Ok(()) => {},
            Err(e) => {
                return Err(e);
            },
        }
        proof {
            assert(first_failure(bytes, at, 4, n) == first_failure(bytes, at, 5, n));
            lemma_put_in_next(old(server), &s4, server, bytes, at, now, 4);
        }
        let ghost s5 = *server;
        match self.load_stage(server, FactType::ElectionUpdate, Ghost(at), Ghost(5)) {
            Ok(()) => {},
            Err(e) => {
                return Err(e);
            },
        }
        proof {
            assert(first_failure(bytes, at, 5, n) == first_failure(bytes, at, 6, n));
            lemma_put_in_next(old(server), &s5, server, bytes, at, now, 5);
        }
        let ghost s6 = *server;
        if version >= 2 {
            match self.load_stage(server, FactType::Departure, Ghost(at), Ghost(6)) {
                Ok(()) => {},
                Err(e) => {
                    return Err(e);
                },
            }
            proof {
                assert(first_failure(bytes, at, 6, n) == first_failure(bytes, at, 7, n));
                lemma_put_in_next(old(server), &s6, server, bytes, at, now, 6);
            }
        }
        Ok(())
    }

    /// Reads section `k`, which holds the rumors of `kind` and at whose
    /// start the file stands, and puts each rumor into its store.
    fn load_stage(
        &mut self,
        server: &mut Server,
        kind: FactType,
        Ghost(at): Ghost<int>,
        Ghost(k): Ghost<int>,
    ) -> (r: Result<(), Error>)
        requires
            kind != FactType::Membership,
            k == kind.spec_position(),
            kind == kind_at(k),
            old(self).spec_header().complete(),
            old(self).spec_header().lengths() == lengths_in(old(self).bytes(), at),
            old(self).position() == section_start(old(self).bytes(), at, k),
        ensures
            final(self).moved(old(self)),
            match section_failure(old(self).bytes(), at, k) {
                None => {
                    &&& r is Ok
                    &&& final(server).rumors(kind) == put_all(
                        old(server).rumors(kind),
                        rumors_of(old(self).bytes(), at, k).facts(),
                    )
                    &&& final(server).same_but(old(server), kind)
                    &&& final(self).position() == section_start(old(self).bytes(), at, k + 1)
                },
                Some((index, why)) => {
                    &&& r == Err::<(), Error>(Error::Decode(kind, index as u64, why))
                    &&& final(server).same_as(old(server))
                },
            },
    {
        proof {
            assert(self.spec_header().knows(kind));
            assert(self.spec_header().lengths()[k] == self.spec_header().length_of(kind));
        }
        self.load_rumors(server, kind)
    }

    /// Appends the frame of one membership and returns its length.
    fn write_member(&self, writer: &mut Vec<u8>, membership: &Membership) -> (total: u64)
        ensures
            final(writer)@ == old(writer)@ + frame(encode_membership(membership@)),
            total == frame(encode_membership(membership@)).len(),
            encode_membership(membership@).len() <= u64::MAX,
    {
        let bytes = membership.write_to_bytes();
        let total = write_frame(writer, bytes.as_slice());
        proof {
            crate::endian::lemma_le_round_trip(bytes@.len() as u64);
        }
        total
    }

    /// Appends the frame of one rumor and returns its length.
    fn write_rumor(&self, writer: &mut Vec<u8>, rumor: &Rumor) -> (total: u64)
        ensures
            final(writer)@ == old(writer)@ + frame(encode_rumor(rumor@)),
            total == frame(encode_rumor(rumor@)).len(),
            encode_rumor(rumor@).len() <= u64::MAX,
            rumor@.encodable(),
    {
        let bytes = rumor.write_to_bytes();
        let total = write_frame(writer, bytes.as_slice());
        proof {
            crate::endian::lemma_le_round_trip(bytes@.len() as u64);
        }
        total
    }

    /// Appends the membership section and returns its length. The
    /// memberships are taken from the table in one step, as a copy.
    fn write_member_list_mlr(&self, writer: &mut Vec<u8>, member_list: &MemberList) -> (total: u64)
        ensures
            final(writer)@ == old(writer)@ + frames(member_payloads(member_list@)),
            total == frames(member_payloads(member_list@)).len(),
            framable(member_payloads(member_list@)),
            crate::member::distinct_ids(member_list@),
    {
        let memberships = member_list.snapshot();
        let ghost payloads = member_payloads(member_list@);
        let mut total: u64 = 0;
        let mut i: usize = 0;
        assert(payloads.take(0) =~= Seq::<Seq<u8>>::empty());
        assert(writer@ + frames(payloads.take(0)) =~= writer@);
        assert(membership_views(memberships@).len() == memberships.len());
        while i < memberships.len()
            invariant
                i <= memberships.len(),
                payloads == member_payloads(member_list@),
                payloads.len() == memberships.len(),
                membership_views(memberships@) == member_list@.map_values(
                    |e: EntryView| e.membership(),
                ),
                writer@ == old(writer)@ + frames(payloads.take(i as int)),
                total == frames(payloads.take(i as int)).len(),
                framable(payloads.take(i as int)),
            decreases memberships.len() - i,
        {
            let ghost before = writer@;
            let n = self.write_member(writer, &memberships[i]);
            proof {
                assert(membership_views(memberships@)[i as int] == memberships[i as int]@);
                assert(encode_membership(memberships[i as int]@) == payloads[i as int]);
                lemma_frames_push(payloads.take(i as int), payloads[i as int]);
                assert(payloads.take(i + 1) =~= payloads.take(i as int).push(payloads[i as int]));
                assert(writer@ =~= old(writer)@ + frames(payloads.take(i + 1)));
            }
            assert(total + n <= writer.len());
            total = total + n;
            i += 1;
        }
        assert(payloads.take(i as int) =~= payloads);
        total
    }

    /// Appends the section of one store and returns its length.
    fn write_rumor_store(&self, writer: &mut Vec<u8>, store: &RumorStore) -> (total: u64)
        ensures
            final(writer)@ == old(writer)@ + frames(rumor_payloads(store@)),
            total == frames(rumor_payloads(store@)).len(),
            framable(rumor_payloads(store@)),
            all_encodable(store@),
            distinct_keys(store@),
    {
        let rumors = store.list();
        let ghost payloads = rumor_payloads(store@);
        let mut total: u64 = 0;
        let mut i: usize = 0;
        assert(payloads.take(0) =~= Seq::<Seq<u8>>::empty());
        assert(writer@ + frames(payloads.take(0)) =~= writer@);
        while i < rumors.len()
            invariant
                i <= rumors.len(),
                payloads == rumor_payloads(store@),
                payloads.len() == rumors.len(),
                rumor_views(rumors@) == store@,
                writer@ == old(writer)@ + frames(payloads.take(i as int)),
                total == frames(payloads.take(i as int)).len(),
                framable(payloads.take(i as int)),
                forall|k: int| 0 <= k < i ==> (#[trigger] store@[k]).encodable(),
            decreases rumors.len() - i,
        {
            let n = self.write_rumor(writer, &rumors[i]);
            proof {
                assert(rumor_views(rumors@)[i as int] == rumors[i as int]@);
                assert(encode_rumor(rumors[i as int]@) == payloads[i as int]);
                lemma_frames_push(payloads.take(i as int), payloads[i as int]);
                assert(payloads.take(i + 1) =~= payloads.take(i as int).push(payloads[i as int]));
                assert(writer@ =~= old(writer)@ + frames(payloads.take(i + 1)));
            }
            assert(total + n <= writer.len());
            total = total + n;
            i += 1;
        }
        assert(payloads.take(i as int) =~= payloads);
        total
    }

    /// Writes the body of `header`, which knows every length, over the 64
    /// bytes behind the version byte, and returns the number of bytes written.
    fn write_header(&self, writer: &mut Vec<u8>, header: &Header) -> (total: usize)
        requires
            header.complete(),
            old(writer)@.len() >= 1 + HEADER_VERSION_2_SIZE,
        ensures
            total == HEADER_VERSION_2_SIZE,
            final(writer)@ == old(writer)@.subrange(0, 1) + body_bytes(header.lengths()) + old(
                writer,
            )@.subrange(1 + HEADER_VERSION_2_SIZE, old(writer)@.len() as int),
    {
        let bytes = match header.write_to_bytes() {
            Ok(bytes) => bytes,
            Err(_) => Vec::new(),
        };
        proof {
            lemma_body_len(header.lengths());
        }
        let mut i: usize = 0;
        while i < bytes.len()
            invariant
                i <= bytes.len(),
                bytes.len() == HEADER_VERSION_2_SIZE,
                writer@.len() == old(writer)@.len(),
                old(writer)@.len() >= 1 + HEADER_VERSION_2_SIZE,
                forall|k: int| 0 <= k < i ==> writer@[1 + k] == bytes@[k],
                forall|k: int|
                    0 <= k < writer@.len() && !(1 <= k < 1 + i) ==> writer@[k] == old(writer)@[k],
            decreases bytes.len() - i,
        {
            writer.set(1 + i, bytes[i]);
            i += 1;
        }
        assert(writer@ =~= old(writer)@.subrange(0, 1) + body_bytes(header.lengths()) + old(
            writer,
        )@.subrange(1 + HEADER_VERSION_2_SIZE, old(writer)@.len() as int));
        bytes.len()
    }

    /// Appends the seven sections of a snapshot of `server`, in their order,
    /// and returns the header that holds their lengths.
    #[verifier::rlimit(40)]
    fn write_sections(&self, writer: &mut Vec<u8>, server: &Server) -> (header: Header)
        ensures
            final(writer)@ == old(writer)@ + all_sections(sections_of(server)),
            header@ == table(lengths_of(sections_of(server))),
            fits(server),
            server.well_formed(),
    {
        let ghost sections = sections_of(server);
        let ghost lengths = lengths_of(sections);
        let ghost head = writer@;
        let mut header = Header::default();
        let members = self.write_member_list_mlr(writer, &server.member_list);
        assert(members == lengths[0]);
        let ghost w0 = writer@;
        header.insert_member_offset(members);
        let services = self.write_rumor_store(writer, &server.service_store);
        assert(services == lengths[1]);
        let ghost w1 = writer@;
        header.insert_offset_for_rumor(FactType::Service.message_id(), services);
        let service_configs = self.write_rumor_store(writer, &server.service_config_store);
        assert(service_configs == lengths[2]);
        let ghost w2 = writer@;
        header.insert_offset_for_rumor(FactType::ServiceConfig.message_id(), service_configs);
        let service_files = self.write_rumor_store(writer, &server.service_file_store);
        assert(service_files == lengths[3]);
        let ghost w3 = writer@;
        header.insert_offset_for_rumor(FactType::ServiceFile.message_id(), service_files);
        let elections = self.write_rumor_store(writer, &server.election_store);
        assert(elections == lengths[4]);
        let ghost w4 = writer@;
        header.insert_offset_for_rumor(FactType::Election.message_id(), elections);
        let updates = self.write_rumor_store(writer, &server.update_store);
        assert(updates == lengths[5]);
        let ghost w5 = writer@;
        header.insert_offset_for_rumor(FactType::ElectionUpdate.message_id(), updates);
        let departures = self.write_rumor_store(writer, &server.departure_store);
        assert(departures == lengths[6]);
        header.insert_offset_for_rumor(FactType::Departure.message_id(), departures);
        assert(w0 == head + sections[0]);
        assert(w1 == w0 + sections[1]);
        assert(w2 == w1 + sections[2]);
        assert(w3 == w2 + sections[3]);
        assert(w4 == w3 + sections[4]);
        assert(w5 == w4 + sections[5]);
        assert(writer@ == w5 + sections[6]);
        proof {
            let s01 = sections[0] + sections[1];
            let s02 = s01 + sections[2];
            let s03 = s02 + sections[3];
            let s04 = s03 + sections[4];
            let s05 = s04 + sections[5];
            assert(w1 =~= head + s01);
            assert(w2 =~= head + s02);
            assert(w3 =~= head + s03);
            assert(w4 =~= head + s04);
            assert(w5 =~= head + s05);
            assert(writer@ =~= head + (s05 + sections[6]));
            assert forall|k: int| 0 <= k < sections.len() implies (#[trigger] sections[k]).len()
                <= u64::MAX by {
                assert(lengths[k] == sections[k].len() as u64);
            }
        }
        header
    }

    /// The bytes of a snapshot of `server`: the version byte, the header
    /// with the length of each section, and the seven sections in their
    /// order. The caller publishes them in one step.
    pub fn write(&self, server: &Server) -> (bytes: Vec<u8>)
        ensures
            bytes@ == snapshot(sections_of(server)),
            fits(server),
            server.well_formed(),
    {
        let mut writer: Vec<u8> = Vec::new();
        writer.push(HEADER_VERSION);
        let mut header_reserve: Vec<u8> = vec![0u8; HEADER_VERSION_2_SIZE];
        writer.append(&mut header_reserve);
        let ghost sections = sections_of(server);
        let ghost lengths = lengths_of(sections);
        let ghost head = writer@;
        let header = self.write_sections(&mut writer, server);
        let ghost full = writer@;
        proof {
            lemma_header_of_table(header, lengths);
            lemma_body_len(lengths);
        }
        self.write_header(&mut writer, &header);
        proof {
            assert(full.subrange(0, 1) =~= seq![HEADER_VERSION]);
            assert(full.subrange(1 + HEADER_VERSION_2_SIZE, full.len() as int) =~= all_sections(
                sections,
            ));
            assert(writer@ =~= snapshot(sections));
        }
        writer
    }
}

/// Putting in the rumors of section `k` extends what was put in by one
/// section.
pub proof fn lemma_put_in_next(
    before: &Server,
    mid: &Server,
    after: &Server,
    bytes: Seq<u8>,
    at: int,
    now: u64,
    k: int,
)
    requires
        1 <= k <= 6,
        put_in(before, mid, bytes, at, now, k),
        after.rumors(kind_at(k)) == put_all(
            mid.rumors(kind_at(k)),
            rumors_of(bytes, at, k).facts(),
        ),
        after.same_but(mid, kind_at(k)),
    ensures
        put_in(before, after, bytes, at, now, k + 1),
{
    assert forall|kind: FactType| kind != FactType::Membership implies #[trigger] after.rumors(
        kind,
    ) == if kind.spec_position() < k + 1 {
        put_all(before.rumors(kind), rumors_of(bytes, at, kind.spec_position()).facts())
    } else {
        before.rumors(kind)
    } by {
        assert(mid.rumors(kind) == if kind.spec_position() < k {
            put_all(before.rumors(kind), rumors_of(bytes, at, kind.spec_position()).facts())
        } else {
            before.rumors(kind)
        });
        if kind != kind_at(k) {
            assert(after.rumors(kind) == mid.rumors(kind));
        }
    }
}

/// A header whose table was made from seven lengths knows every length.
pub proof fn lemma_header_of_table(header: Header, lengths: Seq<u64>)
    requires
        lengths.len() == 7,
        header@ == table(lengths),
    ensures
        header.complete(),
        header.lengths() == lengths,
{
    lemma_table_entry(lengths, FactType::Membership);
    lemma_table_entry(lengths, FactType::Service);
    lemma_table_entry(lengths, FactType::ServiceConfig);
    lemma_table_entry(lengths, FactType::ServiceFile);
    lemma_table_entry(lengths, FactType::Election);
    lemma_table_entry(lengths, FactType::ElectionUpdate);
    lemma_table_entry(lengths, FactType::Departure);
    assert forall|kind: FactType| header.knows(kind) by {
        lemma_table_entry(lengths, kind);
    }
    assert(header.lengths() =~= lengths);
}

/// A header body takes 64 bytes.
pub proof fn lemma_body_len(lengths: Seq<u64>)
    ensures
        body_bytes(lengths).len() == 64,
{
    crate::endian::lemma_le_round_trip(64);
    crate::endian::lemma_le_round_trip(lengths[0]);
    crate::endian::lemma_le_round_trip(lengths[1]);
    crate::endian::lemma_le_round_trip(lengths[2]);
    crate::endian::lemma_le_round_trip(lengths[3]);
    crate::endian::lemma_le_round_trip(lengths[4]);
    crate::endian::lemma_le_round_trip(lengths[5]);
    crate::endian::lemma_le_round_trip(lengths[6]);
}

} // verus!
