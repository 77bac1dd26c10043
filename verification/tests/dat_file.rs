use butterfly::dat_file::DatFile;
use butterfly::error::{DecodeFailure, Error, IoFailure};
use butterfly::fact::FactType;
use butterfly::member::{Health, Member, Membership};
use butterfly::rumor::Rumor;
use butterfly::server::Server;

fn le64(n: u64) -> Vec<u8> {
    n.to_le_bytes().to_vec()
}

fn member(id: &str, incarnation: u64) -> Member {
    Member { id: id.to_string(), incarnation }
}

fn rumor(member_id: &str, key: &str, expiration: Option<u64>, body: &[u8]) -> Rumor {
    Rumor {
        member_id: member_id.to_string(),
        key: key.to_string(),
        expiration,
        body: body.to_vec(),
    }
}

fn framed(payload: &[u8]) -> Vec<u8> {
    let mut out = le64(payload.len() as u64);
    out.extend_from_slice(payload);
    out
}

fn membership_payload(id: &str, incarnation: u64, health: u8) -> Vec<u8> {
    let mut out = vec![health];
    out.extend(le64(incarnation));
    out.extend_from_slice(id.as_bytes());
    out
}

fn u64_at(bytes: &[u8], at: usize) -> u64 {
    let mut b = [0u8; 8];
    b.copy_from_slice(&bytes[at..at + 8]);
    u64::from_le_bytes(b)
}

fn same_rumor(a: &Rumor, b: &Rumor) -> bool {
    a.member_id == b.member_id && a.key == b.key && a.expiration == b.expiration && a.body == b.body
}

fn populated() -> Server {
    let mut server = Server::new();
    server.insert_member(member("m1", 1), Health::Alive, 100);
    server.insert_member(member("m2", 7), Health::Suspect, 100);
    server.insert_member(member("m3", 2), Health::Departed, 100);
    server.insert_service(rumor("m1", "svc1", None, b"redis.default"));
    server.insert_service(rumor("m2", "svc1", Some(5000), b"redis.default"));
    server.insert_service_config(rumor("m1", "cfg", None, b"port = 1"));
    server.insert_service_file(rumor("m1", "file", None, &[0, 1, 2, 255]));
    server.insert_election_mlr(rumor("m2", "redis.default", Some(1), b""));
    server.insert_update_election_mlr(rumor("m3", "redis.default", None, b"u"));
    server.insert_departure(rumor("m3", "departure", None, b"bye"));
    server
}

fn v1_file(sections: [Vec<u8>; 6], trailing: &[u8]) -> Vec<u8> {
    let mut file = vec![1u8];
    for s in sections.iter() {
        file.extend(le64(s.len() as u64));
    }
    assert_eq!(file.len(), 49);
    for s in sections.iter() {
        file.extend_from_slice(s);
    }
    file.extend_from_slice(trailing);
    file
}

#[test]
fn empty_server_writes_version_header_and_no_sections() {
    let file = DatFile::read("snapshot.dat", Vec::new());
    let bytes = file.write(&Server::new());
    assert_eq!(bytes.len(), 65);
    assert_eq!(bytes[0], 2);
    assert_eq!(u64_at(&bytes, 1), 64);
    for k in 0..7 {
        assert_eq!(u64_at(&bytes, 9 + 8 * k), 0);
    }
}

#[test]
fn one_member_and_one_service_rumor() {
    let mut server = Server::new();
    server.insert_member(member("m1", 0), Health::Alive, 0);
    server.insert_service(rumor("m1", "svc1", None, b"payload"));
    let file = DatFile::read("snapshot.dat", Vec::new());
    let bytes = file.write(&server);

    assert_eq!(bytes[0], 2);
    let encoded = Membership { member: member("m1", 0), health: Health::Alive }.write_to_bytes();
    assert_eq!(encoded.len(), 11);
    assert_eq!(u64_at(&bytes, 9), 8 + encoded.len() as u64);
    assert_eq!(&bytes[65..73], &le64(11)[..]);
    assert_eq!(&bytes[73..84], &encoded[..]);
    let service = rumor("m1", "svc1", None, b"payload").write_to_bytes();
    assert_eq!(u64_at(&bytes, 17), 8 + service.len() as u64);
    assert_eq!(bytes.len(), 65 + 19 + 8 + service.len());

    let mut restored = Server::new();
    let mut read = DatFile::read("snapshot.dat", bytes);
    read.read_into_mlr(&mut restored, 42).unwrap();
    assert_eq!(restored.member_list.len(), 1);
    assert_eq!(restored.member_list.health_of("m1"), Some(Health::Alive));
    assert_eq!(restored.service_store.len(), 1);
    assert!(same_rumor(&restored.service_store.list()[0], &rumor("m1", "svc1", None, b"payload")));
    assert_eq!(restored.service_config_store.len(), 0);
    assert_eq!(restored.service_file_store.len(), 0);
    assert_eq!(restored.election_store.len(), 0);
    assert_eq!(restored.update_store.len(), 0);
    assert_eq!(restored.departure_store.len(), 0);
}

#[test]
fn write_then_load_gives_the_same_state() {
    let server = populated();
    let bytes = DatFile::read("snapshot.dat", Vec::new()).write(&server);
    let mut restored = Server::new();
    DatFile::read("snapshot.dat", bytes).read_into_mlr(&mut restored, 9).unwrap();

    let before = server.member_list.snapshot();
    let after = restored.member_list.snapshot();
    assert_eq!(before.len(), 3);
    assert_eq!(after.len(), 3);
    for (a, b) in before.iter().zip(after.iter()) {
        assert_eq!(a.member.id, b.member.id);
        assert_eq!(a.member.incarnation, b.member.incarnation);
        assert_eq!(a.health, b.health);
    }
    let kinds = [
        FactType::Service,
        FactType::ServiceConfig,
        FactType::ServiceFile,
        FactType::Election,
        FactType::ElectionUpdate,
        FactType::Departure,
    ];
    let sizes = [2usize, 1, 1, 1, 1, 1];
    for (kind, size) in kinds.iter().zip(sizes.iter()) {
        let a = server.store(*kind).list();
        let b = restored.store(*kind).list();
        assert_eq!(a.len(), *size);
        assert_eq!(b.len(), *size);
        for (x, y) in a.iter().zip(b.iter()) {
            assert!(same_rumor(x, y));
        }
    }
}

#[test]
fn written_snapshot_written_again_is_the_same() {
    let server = populated();
    let bytes = DatFile::read("a", Vec::new()).write(&server);
    let mut restored = Server::new();
    DatFile::read("a", bytes.clone()).read_into_mlr(&mut restored, 9).unwrap();
    let again = DatFile::read("a", Vec::new()).write(&restored);
    assert_eq!(bytes, again);
}

#[test]
fn recorded_lengths_are_the_sums_of_the_frames() {
    let server = populated();
    let bytes = DatFile::read("a", Vec::new()).write(&server);
    let mut expected = Vec::new();
    let members: usize =
        server.member_list.snapshot().iter().map(|m| 8 + m.write_to_bytes().len()).sum();
    expected.push(members as u64);
    for kind in [
        FactType::Service,
        FactType::ServiceConfig,
        FactType::ServiceFile,
        FactType::Election,
        FactType::ElectionUpdate,
        FactType::Departure,
    ] {
        let n: usize = server.store(kind).list().iter().map(|r| 8 + r.write_to_bytes().len()).sum();
        expected.push(n as u64);
    }
    let mut total = 65u64;
    for k in 0..7 {
        assert_eq!(u64_at(&bytes, 9 + 8 * k), expected[k]);
        total += expected[k];
    }
    assert_eq!(bytes.len() as u64, total);
}

#[test]
fn read_header_gives_version_and_moves_to_the_first_section() {
    let server = populated();
    let bytes = DatFile::read("a", Vec::new()).write(&server);
    let mut file = DatFile::read("a", bytes);
    assert_eq!(file.read_header().unwrap(), 2);
    let members = file.read_members().unwrap();
    assert_eq!(members.len(), 3);
    assert_eq!(members[1].member.id, "m2");
    assert_eq!(members[1].member.incarnation, 7);
    assert_eq!(members[1].health, Health::Suspect);
    let services = file.read_rumors(FactType::Service).unwrap();
    assert_eq!(services.len(), 2);
    assert_eq!(services[1].expiration, Some(5000));
}

#[test]
fn version_1_file_loads_without_departures() {
    let members = [
        framed(&membership_payload("m1", 3, 0)),
        framed(&membership_payload("m2", 4, 2)),
    ]
    .concat();
    let services = framed(&rumor("m1", "svc1", None, b"x").write_to_bytes());
    let elections = framed(&rumor("m2", "e", Some(77), b"").write_to_bytes());
    // What follows the six sections is not read: version 1 has no departure section.
    let trailing = framed(&rumor("m9", "departure", None, b"").write_to_bytes());
    let file =
        v1_file([members, services, Vec::new(), Vec::new(), elections, Vec::new()], &trailing);

    let mut server = Server::new();
    DatFile::read("old.dat", file).read_into_mlr(&mut server, 1).unwrap();
    assert_eq!(server.member_list.len(), 2);
    assert_eq!(server.member_list.health_of("m1"), Some(Health::Alive));
    assert_eq!(server.member_list.health_of("m2"), Some(Health::Confirmed));
    assert_eq!(server.service_store.len(), 1);
    assert_eq!(server.election_store.len(), 1);
    assert_eq!(server.election_store.list()[0].expiration, Some(77));
    assert_eq!(server.departure_store.len(), 0);
}

#[test]
fn version_1_file_with_garbage_behind_it_still_loads() {
    let file = v1_file(
        [Vec::new(), Vec::new(), Vec::new(), Vec::new(), Vec::new(), Vec::new()],
        &[0xff; 5],
    );
    let mut server = Server::new();
    DatFile::read("old.dat", file).read_into_mlr(&mut server, 1).unwrap();
    assert_eq!(server.member_list.len(), 0);
    assert_eq!(server.departure_store.len(), 0);
}

#[test]
fn version_0_is_read_with_the_latest_header_but_without_departures() {
    let server = populated();
    let mut bytes = DatFile::read("a", Vec::new()).write(&server);
    bytes[0] = 0;
    let mut restored = Server::new();
    DatFile::read("a", bytes).read_into_mlr(&mut restored, 1).unwrap();
    assert_eq!(restored.member_list.len(), 3);
    assert_eq!(restored.update_store.len(), 1);
    assert_eq!(restored.departure_store.len(), 0);
}

#[test]
fn later_version_is_read_as_version_2() {
    let server = populated();
    let mut bytes = DatFile::read("a", Vec::new()).write(&server);
    bytes[0] = 3;
    let mut restored = Server::new();
    DatFile::read("a", bytes).read_into_mlr(&mut restored, 1).unwrap();
    assert_eq!(restored.departure_store.len(), 1);
}

#[test]
fn empty_file_fails_with_the_path() {
    let mut server = Server::new();
    let r = DatFile::read("/hab/sup/default/data/x.rst", Vec::new()).read_into_mlr(&mut server, 1);
    match r {
        Err(Error::DatFileIO(path, IoFailure::UnexpectedEof)) => {
            assert_eq!(path, "/hab/sup/default/data/x.rst")
        }
        other => panic!("{:?}", other),
    }
}

#[test]
fn short_header_fails() {
    let mut bytes = DatFile::read("a", Vec::new()).write(&Server::new());
    bytes.truncate(64);
    let mut server = Server::new();
    let r = DatFile::read("a", bytes).read_into_mlr(&mut server, 1);
    assert!(matches!(r, Err(Error::DatFileIO(_, IoFailure::UnexpectedEof))));
}

#[test]
fn header_size_beyond_any_offset_fails() {
    let mut bytes = DatFile::read("a", Vec::new()).write(&Server::new());
    for b in bytes[1..9].iter_mut() {
        *b = 0xff;
    }
    let mut server = Server::new();
    let r = DatFile::read("a", bytes).read_into_mlr(&mut server, 1);
    assert!(matches!(r, Err(Error::DatFileIO(_, IoFailure::InvalidSeek))));
}

#[test]
fn declared_header_size_places_the_first_section() {
    // A header that declares 72 bytes for itself: the sections start at offset 73.
    let server = populated();
    let bytes = DatFile::read("a", Vec::new()).write(&server);
    let mut shifted = bytes[..65].to_vec();
    shifted[1..9].copy_from_slice(&le64(72));
    shifted.extend_from_slice(&[0u8; 8]);
    shifted.extend_from_slice(&bytes[65..]);
    let mut restored = Server::new();
    DatFile::read("a", shifted).read_into_mlr(&mut restored, 1).unwrap();
    assert_eq!(restored.member_list.len(), 3);
    assert_eq!(restored.departure_store.len(), 1);
}

fn with_member_section(section: Vec<u8>, declared: u64) -> Vec<u8> {
    let mut bytes = vec![2u8];
    bytes.extend(le64(64));
    bytes.extend(le64(declared));
    for _ in 0..6 {
        bytes.extend(le64(0));
    }
    bytes.extend(section);
    bytes
}

#[test]
fn frame_that_overruns_its_section_fails() {
    let frames = [
        framed(&membership_payload("m1", 0, 0)),
        framed(&membership_payload("m2", 0, 0)),
    ]
    .concat();
    // One byte short of the second frame's end.
    let bytes = with_member_section(frames.clone(), frames.len() as u64 - 1);
    let mut server = Server::new();
    let r = DatFile::read("a", bytes).read_into_mlr(&mut server, 1);
    assert!(matches!(
        r,
        Err(Error::Decode(FactType::Membership, 1, DecodeFailure::FrameOverrunsSection))
    ));
    assert_eq!(server.member_list.len(), 0);
}

#[test]
fn section_with_less_than_a_length_left_fails() {
    let frames = framed(&membership_payload("m1", 0, 0));
    let mut padded = frames.clone();
    padded.extend_from_slice(&[0u8; 7]);
    let bytes = with_member_section(padded, frames.len() as u64 + 7);
    let mut server = Server::new();
    let r = DatFile::read("a", bytes).read_into_mlr(&mut server, 1);
    assert!(matches!(
        r,
        Err(Error::Decode(FactType::Membership, 1, DecodeFailure::FrameOverrunsSection))
    ));
}

#[test]
fn file_that_ends_in_a_length_fails() {
    let bytes = with_member_section(vec![11, 0, 0], 19);
    let mut server = Server::new();
    let r = DatFile::read("a", bytes).read_into_mlr(&mut server, 1);
    assert!(matches!(
        r,
        Err(Error::Decode(FactType::Membership, 0, DecodeFailure::TruncatedLength))
    ));
}

#[test]
fn file_that_ends_in_a_payload_fails() {
    let mut frames = framed(&membership_payload("m1", 0, 0));
    frames.truncate(12);
    let bytes = with_member_section(frames, 19);
    let mut server = Server::new();
    let r = DatFile::read("a", bytes).read_into_mlr(&mut server, 1);
    assert!(matches!(
        r,
        Err(Error::Decode(FactType::Membership, 0, DecodeFailure::TruncatedPayload))
    ));
}

#[test]
fn malformed_payload_fails_and_names_the_frame() {
    let frames = [
        framed(&membership_payload("m1", 0, 0)),
        framed(&membership_payload("m2", 0, 9)),
        framed(&membership_payload("m3", 0, 0)),
    ]
    .concat();
    let bytes = with_member_section(frames.clone(), frames.len() as u64);
    let mut server = Server::new();
    let r = DatFile::read("a", bytes).read_into_mlr(&mut server, 1);
    assert!(matches!(
        r,
        Err(Error::Decode(FactType::Membership, 1, DecodeFailure::MalformedPayload))
    ));
    assert_eq!(server.member_list.len(), 0);
}

#[test]
fn failure_in_a_later_section_keeps_the_earlier_sections() {
    let server = populated();
    let mut bytes = DatFile::read("a", Vec::new()).write(&server);
    // The service configuration section is declared one byte longer than it is.
    let declared = u64_at(&bytes, 25);
    bytes[25..33].copy_from_slice(&le64(declared + 1));
    let mut restored = Server::new();
    let r = DatFile::read("a", bytes).read_into_mlr(&mut restored, 1);
    assert!(matches!(
        r,
        Err(Error::Decode(FactType::ServiceConfig, 1, DecodeFailure::FrameOverrunsSection))
    ));
    assert_eq!(restored.member_list.len(), 3);
    assert_eq!(restored.service_store.len(), 2);
    assert_eq!(restored.service_config_store.len(), 0);
    assert_eq!(restored.service_file_store.len(), 0);
    assert_eq!(restored.departure_store.len(), 0);
}

#[test]
fn read_or_create_fills_an_empty_file() {
    let server = populated();
    let (mut file, written) =
        DatFile::read_or_create("snapshot.dat".to_string(), Vec::new(), &server);
    let written = written.expect("an empty file is written at once");
    assert_eq!(written, DatFile::read("snapshot.dat", Vec::new()).write(&server));
    assert_eq!(file.path(), "snapshot.dat");
    let mut restored = Server::new();
    file.read_into_mlr(&mut restored, 3).unwrap();
    assert_eq!(restored.member_list.len(), 3);
}

#[test]
fn read_or_create_leaves_a_file_with_contents_alone() {
    let contents = DatFile::read("a", Vec::new()).write(&populated());
    let (mut file, written) = DatFile::read_or_create("a".to_string(), contents, &Server::new());
    assert!(written.is_none());
    let mut restored = Server::new();
    file.read_into_mlr(&mut restored, 3).unwrap();
    assert_eq!(restored.service_store.len(), 2);
}

#[test]
fn loading_into_a_populated_server_replaces_by_key() {
    let mut older = Server::new();
    older.insert_member(member("m1", 1), Health::Suspect, 0);
    older.insert_service(rumor("m1", "svc1", None, b"old"));
    older.insert_service(rumor("m4", "svc1", None, b"kept"));
    let bytes = DatFile::read("a", Vec::new()).write(&populated());
    DatFile::read("a", bytes).read_into_mlr(&mut older, 50).unwrap();
    assert_eq!(older.member_list.len(), 3);
    assert_eq!(older.member_list.health_of("m1"), Some(Health::Alive));
    assert_eq!(older.service_store.len(), 3);
    assert_eq!(older.service_store.list()[0].body, b"redis.default");
    assert_eq!(older.service_store.list()[1].body, b"kept");
}

#[test]
fn read_and_process_gives_the_payloads() {
    let mut contents = framed(b"abc");
    contents.extend(framed(b""));
    contents.extend(framed(&[1, 2, 3, 4, 5, 6, 7, 8, 9]));
    let len = contents.len() as u64;
    contents.extend_from_slice(b"rest");
    let mut file = DatFile::read("a", contents);
    let payloads = file.read_and_process(len, FactType::Service).unwrap();
    assert_eq!(payloads, vec![b"abc".to_vec(), Vec::new(), vec![1, 2, 3, 4, 5, 6, 7, 8, 9]]);
    let none = file.read_and_process(0, FactType::Service).unwrap();
    assert!(none.is_empty());
}
