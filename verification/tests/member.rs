use butterfly::error::DecodeFailure;
use butterfly::member::{Health, Member, MemberList, Membership};

fn member(id: &str, incarnation: u64) -> Member {
    Member { id: id.to_string(), incarnation }
}

#[test]
fn membership_payload_is_health_incarnation_and_id() {
    let m = Membership { member: member("m1", 0x0102), health: Health::Confirmed };
    assert_eq!(m.write_to_bytes(), vec![2, 2, 1, 0, 0, 0, 0, 0, 0, b'm', b'1']);
    let alive = Membership { member: member("", 0), health: Health::Alive };
    assert_eq!(alive.write_to_bytes(), vec![0, 0, 0, 0, 0, 0, 0, 0, 0]);
}

#[test]
fn membership_decodes_what_it_encodes() {
    for health in [Health::Alive, Health::Suspect, Health::Confirmed, Health::Departed] {
        let m = Membership { member: member("ça-va/日本", u64::MAX), health };
        let back = Membership::from_bytes(&m.write_to_bytes()).unwrap();
        assert_eq!(back.member.id, "ça-va/日本");
        assert_eq!(back.member.incarnation, u64::MAX);
        assert_eq!(back.health, health);
    }
}

#[test]
fn malformed_memberships_are_refused() {
    let short = [0u8; 8];
    assert_eq!(Membership::from_bytes(&short).unwrap_err(), DecodeFailure::MalformedPayload);
    let bad_health = [4u8, 0, 0, 0, 0, 0, 0, 0, 0];
    assert_eq!(Membership::from_bytes(&bad_health).unwrap_err(), DecodeFailure::MalformedPayload);
    let bad_text = [0u8, 0, 0, 0, 0, 0, 0, 0, 0, 0xff];
    assert_eq!(Membership::from_bytes(&bad_text).unwrap_err(), DecodeFailure::MalformedPayload);
}

#[test]
fn health_codes() {
    assert_eq!(Health::Alive.code(), 0);
    assert_eq!(Health::Suspect.code(), 1);
    assert_eq!(Health::Confirmed.code(), 2);
    assert_eq!(Health::Departed.code(), 3);
    assert_eq!(Health::from_code(2), Some(Health::Confirmed));
    assert_eq!(Health::from_code(4), None);
}

#[test]
fn insert_adds_or_replaces_by_id() {
    let mut list = MemberList::new();
    list.insert(member("a", 1), Health::Alive, 0);
    list.insert(member("b", 1), Health::Suspect, 0);
    list.insert(member("a", 2), Health::Confirmed, 5);
    assert_eq!(list.len(), 2);
    assert_eq!(list.health_of("a"), Some(Health::Confirmed));
    assert_eq!(list.health_of("b"), Some(Health::Suspect));
    assert_eq!(list.health_of("c"), None);
    let all = list.snapshot();
    assert_eq!(all[0].member.id, "a");
    assert_eq!(all[0].member.incarnation, 2);
    assert_eq!(all[1].member.id, "b");
}

#[test]
fn suspect_is_confirmed_only_after_the_timeout_is_exceeded() {
    let mut list = MemberList::new();
    list.insert(member("a", 1), Health::Suspect, 1000);
    list.members_expired_to_confirmed(500, 1499);
    assert_eq!(list.health_of("a"), Some(Health::Suspect));
    list.members_expired_to_confirmed(500, 1500);
    assert_eq!(list.health_of("a"), Some(Health::Suspect));
    list.members_expired_to_confirmed(500, 1501);
    assert_eq!(list.health_of("a"), Some(Health::Confirmed));
}

#[test]
fn confirmed_departs_only_after_the_timeout_is_exceeded() {
    let mut list = MemberList::new();
    list.insert(member("a", 1), Health::Confirmed, 1000);
    list.members_expired_to_departed(2000, 3000);
    assert_eq!(list.health_of("a"), Some(Health::Confirmed));
    list.members_expired_to_departed(2000, 3001);
    assert_eq!(list.health_of("a"), Some(Health::Departed));
}

#[test]
fn time_in_state_starts_anew_with_each_health() {
    let mut list = MemberList::new();
    list.insert(member("a", 1), Health::Suspect, 0);
    list.members_expired_to_confirmed(10, 100);
    assert_eq!(list.health_of("a"), Some(Health::Confirmed));
    // Confirmed since 100: not yet longer than 50.
    list.members_expired_to_departed(50, 150);
    assert_eq!(list.health_of("a"), Some(Health::Confirmed));
    list.members_expired_to_departed(50, 151);
    assert_eq!(list.health_of("a"), Some(Health::Departed));
}

#[test]
fn sweeps_leave_other_healths_alone() {
    let mut list = MemberList::new();
    list.insert(member("alive", 1), Health::Alive, 0);
    list.insert(member("confirmed", 1), Health::Confirmed, 0);
    list.insert(member("departed", 1), Health::Departed, 0);
    list.members_expired_to_confirmed(0, u64::MAX);
    assert_eq!(list.health_of("alive"), Some(Health::Alive));
    assert_eq!(list.health_of("confirmed"), Some(Health::Confirmed));
    assert_eq!(list.health_of("departed"), Some(Health::Departed));
    list.members_expired_to_departed(0, u64::MAX);
    assert_eq!(list.health_of("alive"), Some(Health::Alive));
    assert_eq!(list.health_of("confirmed"), Some(Health::Departed));
    assert_eq!(list.health_of("departed"), Some(Health::Departed));
}

#[test]
fn a_clock_that_went_back_ages_nobody() {
    let mut list = MemberList::new();
    list.insert(member("a", 1), Health::Suspect, 1000);
    list.members_expired_to_confirmed(0, 999);
    assert_eq!(list.health_of("a"), Some(Health::Suspect));
    list.members_expired_to_confirmed(0, 1000);
    assert_eq!(list.health_of("a"), Some(Health::Suspect));
}
