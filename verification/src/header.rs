//! The versioned table of section lengths at the start of a snapshot.

use crate::endian::{le_bytes, le_u64, read_u64, write_u64};
use crate::error::{Error, IoFailure};
use crate::fact::FactType;
use crate::reader::ByteReader;
use vstd::hash_map::StringHashMap;
use vstd::prelude::*;
use vstd::slice::slice_subrange;

verus! {

/// The version byte that every written snapshot carries.
pub const HEADER_VERSION: u8 = 2;

/// A version 1 header body: six lengths of eight bytes each.
pub const HEADER_VERSION_1_SIZE: usize = 48;

/// A version 2 header body: its own size, then seven lengths, eight bytes each.
pub const HEADER_VERSION_2_SIZE: usize = 64;

/// The number of bytes of the header body that follows the given version byte.
pub open spec fn spec_body_len(version: u8) -> nat {
    if version == 1 {
        48
    } else {
        64
    }
}

/// The `i`th field of eight bytes of a header body.
pub open spec fn field(body: Seq<u8>, i: int) -> u64 {
    le_u64(body.subrange(8 * i, 8 * i + 8))
}

/// The size that a header body of the given version declares for itself.
/// Version 1 has no such field: its size is fixed.
pub open spec fn declared_size(body: Seq<u8>, version: u8) -> u64 {
    if version == 1 {
        48
    } else {
        field(body, 0)
    }
}

/// The seven section lengths that a header body of the given version
/// declares, in the order of the sections. Version 1 knows no departures:
/// their length is 0. Every other version is read as version 2.
pub open spec fn declared_lengths(body: Seq<u8>, version: u8) -> Seq<u64> {
    if version == 1 {
        seq![
            field(body, 0),
            field(body, 1),
            field(body, 2),
            field(body, 3),
            field(body, 4),
            field(body, 5),
            0u64,
        ]
    } else {
        seq![
            field(body, 1),
            field(body, 2),
            field(body, 3),
            field(body, 4),
            field(body, 5),
            field(body, 6),
            field(body, 7),
        ]
    }
}

/// The table that gives each kind's identifier the length at the kind's place.
pub open spec fn table(lengths: Seq<u64>) -> Map<Seq<char>, u64> {
    Map::<Seq<char>, u64>::empty().insert(FactType::Membership.spec_message_id(), lengths[0]).insert(
        FactType::Service.spec_message_id(),
        lengths[1],
    ).insert(FactType::ServiceConfig.spec_message_id(), lengths[2]).insert(
        FactType::ServiceFile.spec_message_id(),
        lengths[3],
    ).insert(FactType::Election.spec_message_id(), lengths[4]).insert(
        FactType::ElectionUpdate.spec_message_id(),
        lengths[5],
    ).insert(FactType::Departure.spec_message_id(), lengths[6])
}

/// The body of a version 2 header with the given seven section lengths.
pub open spec fn body_bytes(lengths: Seq<u64>) -> Seq<u8> {
    le_bytes(64) + le_bytes(lengths[0]) + le_bytes(lengths[1]) + le_bytes(lengths[2]) + le_bytes(
        lengths[3],
    ) + le_bytes(lengths[4]) + le_bytes(lengths[5]) + le_bytes(lengths[6])
}

/// Section lengths by the identifier of the kind of fact.
pub struct Header {
    offsets: StringHashMap<u64>,
}

impl View for Header {
    type V = Map<Seq<char>, u64>;

    closed spec fn view(&self) -> Map<Seq<char>, u64> {
        self.offsets@
    }
}

impl Default for Header {
    /// A header that knows no length yet.
    fn default() -> (header: Self)
        ensures
            header@ == Map::<Seq<char>, u64>::empty(),
    {
        Header { offsets: StringHashMap::new() }
    }
}

impl Header {
    /// Whether the header knows the length of the section of `kind`.
    pub open spec fn knows(&self, kind: FactType) -> bool {
        self@.contains_key(kind.spec_message_id())
    }

    /// Whether the header knows the length of each of the seven sections.
    pub open spec fn complete(&self) -> bool {
        forall|kind: FactType| self.knows(kind)
    }

    /// The length that the header gives the section of `kind`.
    pub open spec fn length_of(&self, kind: FactType) -> u64 {
        self@[kind.spec_message_id()]
    }

    /// The seven lengths of a complete header, in the order of the sections.
    pub open spec fn lengths(&self) -> Seq<u64> {
        seq![
            self.length_of(FactType::Membership),
            self.length_of(FactType::Service),
            self.length_of(FactType::ServiceConfig),
            self.length_of(FactType::ServiceFile),
            self.length_of(FactType::Election),
            self.length_of(FactType::ElectionUpdate),
            self.length_of(FactType::Departure),
        ]
    }

    /// Reads the header body that follows the version byte: 48 bytes after
    /// version 1, 64 bytes after any other. Returns the size that the body
    /// declares together with the header.
    pub fn from_file(reader: &mut ByteReader, version: u8) -> (r: Result<(u64, Self), IoFailure>)
        ensures
            final(reader).bytes() == old(reader).bytes(),
            match r {
                Ok((size, header)) => {
                    let start = old(reader).position() as int;
                    let body = old(reader).bytes().subrange(start, start + spec_body_len(version));
                    &&& start + spec_body_len(version) <= old(reader).bytes().len()
                    &&& final(reader).position() == start + spec_body_len(version)
                    &&& size == declared_size(body, version)
                    &&& header@ == table(declared_lengths(body, version))
                },
                Err(e) => {
                    &&& e == IoFailure::UnexpectedEof
                    &&& old(reader).position() + spec_body_len(version) > old(reader).bytes().len()
                    &&& final(reader).position() == old(reader).position()
                },
            },
    {
        let n: usize = match version {
            1 => HEADER_VERSION_1_SIZE,
            _ => HEADER_VERSION_2_SIZE,
        };
        match reader.read_exact(n) {
            Ok(bytes) => Ok(Self::from_bytes(bytes.as_slice(), version)),
            Err(e) => Err(e),
        }
    }

    /// Records the length of the membership section.
    pub fn insert_member_offset(&mut self, offset: u64)
        ensures
            final(self)@ == old(self)@.insert(FactType::Membership.spec_message_id(), offset),
    {
        self.offsets.insert(FactType::Membership.message_id().to_owned(), offset);
    }

    /// Records the length of the section of the kind with the given identifier.
    pub fn insert_offset_for_rumor(&mut self, message_id: &str, offset: u64)
        ensures
            final(self)@ == old(self)@.insert(message_id@, offset),
    {
        self.offsets.insert(message_id.to_owned(), offset);
    }

    /// Whether the header knows the length of the section of the kind with
    /// the given identifier.
    pub fn contains(&self, message_id: &str) -> (known: bool)
        ensures
            known == self@.contains_key(message_id@),
    {
        self.offsets.contains_key(message_id)
    }

    /// The length of the section of the kind with the given identifier,
    /// which the header must know.
    pub fn offset_for_rumor(&self, message_id: &str) -> (offset: u64)
        requires
            self@.contains_key(message_id@),
        ensures
            offset == self@[message_id@],
    {
        match self.offsets.get(message_id) {
            Some(offset) => *offset,
            None => 0,
        }
    }

    /// The length of the membership section, which the header must know.
    pub fn member_offset(&self) -> (offset: u64)
        requires
            self.knows(FactType::Membership),
        ensures
            offset == self.length_of(FactType::Membership),
    {
        self.offset_for_rumor(FactType::Membership.message_id())
    }

    /// Reads a header body of the given version: the size that it declares,
    /// and the seven section lengths by identifier. The body of version 1
    /// declares neither its size nor a departure section: the size is 48,
    /// the length 0. Every other version is read as version 2.
    pub fn from_bytes(bytes: &[u8], version: u8) -> (r: (u64, Self))
        requires
            bytes@.len() >= spec_body_len(version),
        ensures
            r.0 == declared_size(bytes@, version),
            r.1@ == table(declared_lengths(bytes@, version)),
            r.1.complete(),
    {
        let first: usize = if version == 1 {
            0
        } else {
            1
        };
        let mut header = Header::default();
        header.insert_member_offset(field_at(bytes, first));
        header.insert_offset_for_rumor(FactType::Service.message_id(), field_at(bytes, first + 1));
        header.insert_offset_for_rumor(
            FactType::ServiceConfig.message_id(),
            field_at(bytes, first + 2),
        );
        header.insert_offset_for_rumor(
            FactType::ServiceFile.message_id(),
            field_at(bytes, first + 3),
        );
        header.insert_offset_for_rumor(FactType::Election.message_id(), field_at(bytes, first + 4));
        header.insert_offset_for_rumor(
            FactType::ElectionUpdate.message_id(),
            field_at(bytes, first + 5),
        );
        if version == 1 {
            header.insert_offset_for_rumor(FactType::Departure.message_id(), 0);
            proof {
                lemma_table_complete(declared_lengths(bytes@, version));
            }
            (HEADER_VERSION_1_SIZE as u64, header)
        } else {
            header.insert_offset_for_rumor(
                FactType::Departure.message_id(),
                field_at(bytes, first + 6),
            );
            proof {
                lemma_table_complete(declared_lengths(bytes@, version));
            }
            (field_at(bytes, 0), header)
        }
    }

    /// The body of a version 2 header with the lengths of this header, all
    /// seven of which it must know.
    pub fn write_to_bytes(&self) -> (r: Result<Vec<u8>, Error>)
        requires
            self.complete(),
        ensures
            r matches Ok(bytes) && bytes@ == body_bytes(self.lengths()),
    {
        assert(self.knows(FactType::Membership));
        assert(self.knows(FactType::Service));
        assert(self.knows(FactType::ServiceConfig));
        assert(self.knows(FactType::ServiceFile));
        assert(self.knows(FactType::Election));
        assert(self.knows(FactType::ElectionUpdate));
        assert(self.knows(FactType::Departure));
        let mut bytes: Vec<u8> = write_u64(HEADER_VERSION_2_SIZE as u64);
        let mut part = write_u64(self.member_offset());
        bytes.append(&mut part);
        part = write_u64(self.offset_for_rumor(FactType::Service.message_id()));
        bytes.append(&mut part);
        part = write_u64(self.offset_for_rumor(FactType::ServiceConfig.message_id()));
        bytes.append(&mut part);
        part = write_u64(self.offset_for_rumor(FactType::ServiceFile.message_id()));
        bytes.append(&mut part);
        part = write_u64(self.offset_for_rumor(FactType::Election.message_id()));
        bytes.append(&mut part);
        part = write_u64(self.offset_for_rumor(FactType::ElectionUpdate.message_id()));
        bytes.append(&mut part);
        part = write_u64(self.offset_for_rumor(FactType::Departure.message_id()));
        bytes.append(&mut part);
        assert(bytes@ =~= body_bytes(self.lengths()));
        Ok(bytes)
    }
}

/// The `i`th field of eight bytes of a header body.
fn field_at(bytes: &[u8], i: usize) -> (n: u64)
    requires
        i < 8,
        8 * i + 8 <= bytes@.len(),
    ensures
        n == field(bytes@, i as int),
{
    let piece = slice_subrange(bytes, 8 * i, 8 * i + 8);
    assert(piece@.subrange(0, 8) =~= piece@);
    read_u64(piece)
}

/// A table made from seven lengths knows every kind, each with the length
/// at the kind's place.
pub proof fn lemma_table_entry(lengths: Seq<u64>, kind: FactType)
    requires
        lengths.len() == 7,
    ensures
        table(lengths).contains_key(kind.spec_message_id()),
        table(lengths)[kind.spec_message_id()] == lengths[kind.spec_position()],
{
    crate::fact::lemma_message_ids_distinct(kind, FactType::Membership);
    crate::fact::lemma_message_ids_distinct(kind, FactType::Service);
    crate::fact::lemma_message_ids_distinct(kind, FactType::ServiceConfig);
    crate::fact::lemma_message_ids_distinct(kind, FactType::ServiceFile);
    crate::fact::lemma_message_ids_distinct(kind, FactType::Election);
    crate::fact::lemma_message_ids_distinct(kind, FactType::ElectionUpdate);
    crate::fact::lemma_message_ids_distinct(kind, FactType::Departure);
    let m0 = Map::<Seq<char>, u64>::empty().insert(
        FactType::Membership.spec_message_id(),
        lengths[0],
    );
    let m1 = m0.insert(FactType::Service.spec_message_id(), lengths[1]);
    let m2 = m1.insert(FactType::ServiceConfig.spec_message_id(), lengths[2]);
    let m3 = m2.insert(FactType::ServiceFile.spec_message_id(), lengths[3]);
    let m4 = m3.insert(FactType::Election.spec_message_id(), lengths[4]);
    let m5 = m4.insert(FactType::ElectionUpdate.spec_message_id(), lengths[5]);
    let m6 = m5.insert(FactType::Departure.spec_message_id(), lengths[6]);
    assert(table(lengths) == m6);
    match kind {
        FactType::Membership => {
            assert(m0.contains_key(kind.spec_message_id()));
            assert(m1[kind.spec_message_id()] == lengths[0]);
            assert(m2[kind.spec_message_id()] == lengths[0]);
            assert(m3[kind.spec_message_id()] == lengths[0]);
            assert(m4[kind.spec_message_id()] == lengths[0]);
            assert(m5[kind.spec_message_id()] == lengths[0]);
        },
        FactType::Service => {
            assert(m1.contains_key(kind.spec_message_id()));
            assert(m2[kind.spec_message_id()] == lengths[1]);
            assert(m3[kind.spec_message_id()] == lengths[1]);
            assert(m4[kind.spec_message_id()] == lengths[1]);
            assert(m5[kind.spec_message_id()] == lengths[1]);
        },
        FactType::ServiceConfig => {
            assert(m2.contains_key(kind.spec_message_id()));
            assert(m3[kind.spec_message_id()] == lengths[2]);
            assert(m4[kind.spec_message_id()] == lengths[2]);
            assert(m5[kind.spec_message_id()] == lengths[2]);
        },
        FactType::ServiceFile => {
            assert(m3.contains_key(kind.spec_message_id()));
            assert(m4[kind.spec_message_id()] == lengths[3]);
            assert(m5[kind.spec_message_id()] == lengths[3]);
        },
        FactType::Election => {
            assert(m4.contains_key(kind.spec_message_id()));
            assert(m5[kind.spec_message_id()] == lengths[4]);
        },
        FactType::ElectionUpdate => {
            assert(m5.contains_key(kind.spec_message_id()));
        },
        FactType::Departure => {},
    }
}

/// A table made from seven lengths knows every kind.
pub proof fn lemma_table_complete(lengths: Seq<u64>)
    requires
        lengths.len() == 7,
    ensures
        forall|kind: FactType| #[trigger]
            table(lengths).contains_key(kind.spec_message_id()),
{
    assert forall|kind: FactType| #[trigger]
        table(lengths).contains_key(kind.spec_message_id()) by {
        lemma_table_entry(lengths, kind);
    }
}

} // verus!
