use butterfly::error::DecodeFailure;
use butterfly::rumor::{Rumor, RumorStore};

fn rumor(member_id: &str, key: &str, expiration: Option<u64>, body: &[u8]) -> Rumor {
    Rumor {
        member_id: member_id.to_string(),
        key: key.to_string(),
        expiration,
        body: body.to_vec(),
    }
}

fn keys(store: &RumorStore) -> Vec<(String, String)> {
    store.list().iter().map(|r| (r.member_id.clone(), r.key.clone())).collect()
}

fn pair(a: &str, b: &str) -> (String, String) {
    (a.to_string(), b.to_string())
}

#[test]
fn rumor_payload_layout() {
    let r = rumor("m1", "k", Some(0x0a0b), &[9, 8]);
    let mut expected = vec![1u8, 0x0b, 0x0a, 0, 0, 0, 0, 0, 0];
    expected.extend_from_slice(&[2, 0, 0, 0, 0, 0, 0, 0, b'm', b'1']);
    expected.extend_from_slice(&[1, 0, 0, 0, 0, 0, 0, 0, b'k']);
    expected.extend_from_slice(&[9, 8]);
    assert_eq!(r.write_to_bytes(), expected);
    let immortal = rumor("", "", None, &[]);
    assert_eq!(immortal.write_to_bytes(), vec![0u8; 25]);
}

#[test]
fn rumor_decodes_what_it_encodes() {
    for expiration in [None, Some(0), Some(u64::MAX)] {
        let r = rumor("member-é", "svc.grp", expiration, &[0, 255, 1]);
        let back = Rumor::from_bytes(&r.write_to_bytes()).unwrap();
        assert_eq!(back.member_id, "member-é");
        assert_eq!(back.key, "svc.grp");
        assert_eq!(back.expiration, expiration);
        assert_eq!(back.body, vec![0, 255, 1]);
    }
}

#[test]
fn malformed_rumors_are_refused() {
    let good = rumor("m1", "k", None, b"x").write_to_bytes();
    assert!(Rumor::from_bytes(&good).is_ok());
    let mut flag = good.clone();
    flag[0] = 2;
    assert_eq!(Rumor::from_bytes(&flag).unwrap_err(), DecodeFailure::MalformedPayload);
    assert_eq!(Rumor::from_bytes(&good[..8]).unwrap_err(), DecodeFailure::MalformedPayload);
    assert_eq!(Rumor::from_bytes(&good[..16]).unwrap_err(), DecodeFailure::MalformedPayload);
    assert_eq!(Rumor::from_bytes(&good[..18]).unwrap_err(), DecodeFailure::MalformedPayload);
    assert_eq!(Rumor::from_bytes(&good[..27]).unwrap_err(), DecodeFailure::MalformedPayload);
    let mut long_id = good.clone();
    long_id[9] = 200;
    assert_eq!(Rumor::from_bytes(&long_id).unwrap_err(), DecodeFailure::MalformedPayload);
    let mut huge = good.clone();
    for b in huge[9..17].iter_mut() {
        *b = 0xff;
    }
    assert_eq!(Rumor::from_bytes(&huge).unwrap_err(), DecodeFailure::MalformedPayload);
    let mut text = good.clone();
    text[17] = 0xff;
    assert_eq!(Rumor::from_bytes(&text).unwrap_err(), DecodeFailure::MalformedPayload);
}

#[test]
fn store_holds_one_rumor_for_each_member_and_key() {
    let mut store = RumorStore::new();
    store.insert(rumor("m1", "a", None, b"1"));
    store.insert(rumor("m1", "b", None, b"2"));
    store.insert(rumor("m2", "a", None, b"3"));
    store.insert(rumor("m1", "a", Some(4), b"4"));
    assert_eq!(store.len(), 3);
    assert_eq!(keys(&store), vec![pair("m1", "a"), pair("m1", "b"), pair("m2", "a")]);
    assert_eq!(store.list()[0].body, b"4");
    assert_eq!(store.list()[0].expiration, Some(4));
    assert!(store.contains("m2", "a"));
    assert!(!store.contains("m2", "b"));
    assert!(!store.contains("a", "m2"));
}

#[test]
fn purge_drops_what_has_expired_at_or_before_now() {
    let mut store = RumorStore::new();
    store.insert(rumor("m1", "past", Some(99), b""));
    store.insert(rumor("m1", "now", Some(100), b""));
    store.insert(rumor("m1", "later", Some(101), b""));
    store.insert(rumor("m1", "never", None, b""));
    store.purge_expired(100);
    assert_eq!(keys(&store), vec![pair("m1", "later"), pair("m1", "never")]);
}

#[test]
fn purge_twice_is_purge_once() {
    let mut store = RumorStore::new();
    for (i, expiration) in [Some(5), None, Some(50), Some(7), Some(51)].iter().enumerate() {
        store.insert(rumor("m", &i.to_string(), *expiration, b""));
    }
    store.purge_expired(50);
    let once = keys(&store);
    assert_eq!(once, vec![pair("m", "1"), pair("m", "4")]);
    store.purge_expired(50);
    assert_eq!(keys(&store), once);
}

#[test]
fn purge_before_any_expiration_changes_nothing() {
    let mut store = RumorStore::new();
    store.insert(rumor("m1", "a", Some(10), b""));
    store.insert(rumor("m2", "a", None, b""));
    store.insert(rumor("m3", "a", Some(11), b""));
    store.purge_expired(9);
    assert_eq!(keys(&store), vec![pair("m1", "a"), pair("m2", "a"), pair("m3", "a")]);
    store.purge_expired(0);
    assert_eq!(store.len(), 3);
}

#[test]
fn immortal_rumors_survive_the_end_of_time() {
    let mut store = RumorStore::new();
    store.insert(rumor("m1", "a", None, b""));
    store.insert(rumor("m1", "b", Some(u64::MAX), b""));
    store.purge_expired(u64::MAX);
    assert_eq!(keys(&store), vec![pair("m1", "a")]);
}
