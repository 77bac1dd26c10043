use butterfly::fact::FactType;
use butterfly::header::{Header, HEADER_VERSION, HEADER_VERSION_1_SIZE, HEADER_VERSION_2_SIZE};
use butterfly::reader::ByteReader;

fn le(n: u64) -> Vec<u8> {
    n.to_le_bytes().to_vec()
}

fn body_v2(size: u64, lengths: [u64; 7]) -> Vec<u8> {
    let mut body = le(size);
    for n in lengths.iter() {
        body.extend(le(*n));
    }
    body
}

const KINDS: [FactType; 7] = [
    FactType::Membership,
    FactType::Service,
    FactType::ServiceConfig,
    FactType::ServiceFile,
    FactType::Election,
    FactType::ElectionUpdate,
    FactType::Departure,
];

#[test]
fn read_write_header() {
    let mut header = Header::default();
    header.insert_member_offset(11);
    header.insert_offset_for_rumor(FactType::Service.message_id(), 22);
    header.insert_offset_for_rumor(FactType::ServiceConfig.message_id(), 33);
    header.insert_offset_for_rumor(FactType::ServiceFile.message_id(), 44);
    header.insert_offset_for_rumor(FactType::Election.message_id(), 55);
    header.insert_offset_for_rumor(FactType::ElectionUpdate.message_id(), 66);
    header.insert_offset_for_rumor(FactType::Departure.message_id(), 77);
    let bytes = header.write_to_bytes().unwrap();
    assert_eq!(bytes, body_v2(64, [11, 22, 33, 44, 55, 66, 77]));
    let (size, read) = Header::from_bytes(&bytes, HEADER_VERSION);
    assert_eq!(size, 64);
    for (i, kind) in KINDS.iter().enumerate() {
        assert_eq!(read.offset_for_rumor(kind.message_id()), 11 * (i as u64 + 1));
    }
    assert_eq!(read.member_offset(), 11);
}

#[test]
fn header_sizes_are_those_of_the_two_versions() {
    assert_eq!(HEADER_VERSION, 2);
    assert_eq!(HEADER_VERSION_1_SIZE, 48);
    assert_eq!(HEADER_VERSION_2_SIZE, 64);
}

#[test]
fn version_1_body_has_six_lengths_and_no_departures() {
    let mut body = Vec::new();
    for n in [1u64, 2, 3, 4, 5, 6] {
        body.extend(le(n));
    }
    assert_eq!(body.len(), 48);
    let (size, header) = Header::from_bytes(&body, 1);
    assert_eq!(size, 48);
    assert_eq!(header.member_offset(), 1);
    assert_eq!(header.offset_for_rumor("service"), 2);
    assert_eq!(header.offset_for_rumor("service_config"), 3);
    assert_eq!(header.offset_for_rumor("service_file"), 4);
    assert_eq!(header.offset_for_rumor("election"), 5);
    assert_eq!(header.offset_for_rumor("election_update"), 6);
    assert_eq!(header.offset_for_rumor("departure"), 0);
}

#[test]
fn version_2_body_declares_its_own_size() {
    let body = body_v2(64, [10, 20, 30, 40, 50, 60, 70]);
    let (size, header) = Header::from_bytes(&body, 2);
    assert_eq!(size, 64);
    assert_eq!(header.member_offset(), 10);
    assert_eq!(header.offset_for_rumor("departure"), 70);
}

#[test]
fn unknown_version_is_read_as_version_2() {
    let body = body_v2(72, [1, 2, 3, 4, 5, 6, 7]);
    let (size, header) = Header::from_bytes(&body, 9);
    assert_eq!(size, 72);
    assert_eq!(header.offset_for_rumor("election_update"), 6);
    let (size0, header0) = Header::from_bytes(&body, 0);
    assert_eq!(size0, 72);
    assert_eq!(header0.offset_for_rumor("departure"), 7);
}

#[test]
fn lengths_are_little_endian() {
    let body = body_v2(64, [0x0102_0304_0506_0708, 0, 0, 0, 0, 0, u64::MAX]);
    assert_eq!(&body[8..16], &[8, 7, 6, 5, 4, 3, 2, 1]);
    let (_, header) = Header::from_bytes(&body, 2);
    assert_eq!(header.member_offset(), 0x0102_0304_0506_0708);
    assert_eq!(header.offset_for_rumor("departure"), u64::MAX);
    let written = header.write_to_bytes().unwrap();
    assert_eq!(written, body);
}

#[test]
fn from_file_reads_the_body_behind_the_version_byte() {
    let mut contents = vec![2u8];
    contents.extend(body_v2(64, [9, 8, 7, 6, 5, 4, 3]));
    contents.extend([0xaa, 0xbb]);
    let mut reader = ByteReader::new(contents);
    let version = reader.read_exact(1).unwrap();
    let (size, header) = Header::from_file(&mut reader, version[0]).unwrap();
    assert_eq!(size, 64);
    assert_eq!(header.member_offset(), 9);
    assert_eq!(reader.read_exact(2).unwrap(), vec![0xaa, 0xbb]);
}

#[test]
fn from_file_fails_on_a_short_body() {
    let mut reader = ByteReader::new(vec![0u8; 63]);
    assert!(Header::from_file(&mut reader, 2).is_err());
    let mut reader = ByteReader::new(vec![0u8; 63]);
    assert!(Header::from_file(&mut reader, 1).is_ok());
    let mut reader = ByteReader::new(vec![0u8; 47]);
    assert!(Header::from_file(&mut reader, 1).is_err());
}

#[test]
fn a_later_length_replaces_an_earlier_one() {
    let mut header = Header::default();
    header.insert_offset_for_rumor("service", 1);
    header.insert_offset_for_rumor("service", 2);
    assert_eq!(header.offset_for_rumor("service"), 2);
}

#[test]
fn message_ids_and_positions() {
    let ids = [
        "membership",
        "service",
        "service_config",
        "service_file",
        "election",
        "election_update",
        "departure",
    ];
    for (i, kind) in KINDS.iter().enumerate() {
        assert_eq!(kind.message_id(), ids[i]);
        assert_eq!(kind.position(), i);
    }
}

#[test]
fn a_new_header_knows_no_length() {
    let mut header = Header::default();
    for kind in KINDS.iter() {
        assert!(!header.contains(kind.message_id()));
    }
    header.insert_member_offset(5);
    assert!(header.contains("membership"));
    assert!(!header.contains("service"));
}
