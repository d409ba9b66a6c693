//! The session directory against its time-limited store: round trips,
//! overwrite, expiry, enumeration and the error taxonomy.

use cryo_sessions::{Directory, Error, Session, Uuid};

fn token_of(s: &str) -> Session {
    Session::from(String::from(s))
}

fn identity_of(s: &str) -> Uuid {
    Uuid::from(String::from(s))
}

#[test]
fn create_then_get_round_trip() {
    let mut dir = Directory::new();
    let tok = Session::new();
    let id = Uuid::new();
    let r = dir.create_session(&tok, &id, Some("Mozilla/5.0"), 60);
    assert_eq!(r, Ok(()));
    let got = dir.get_session(&tok).unwrap().unwrap();
    assert_eq!(got.identity.uuid, id.uuid);
    assert_eq!(got.metadata.as_deref(), Some("Mozilla/5.0"));
}

#[test]
fn get_unknown_token_is_absent_not_error() {
    let dir = Directory::new();
    let r = dir.get_session(&token_of("never-created"));
    assert_eq!(r.map(|o| o.is_none()), Ok(true));
}

#[test]
fn create_without_metadata_reads_back_none() {
    let mut dir = Directory::new();
    let tok = Session::new();
    let id = Uuid::new();
    dir.create_session(&tok, &id, None, 60).unwrap();
    let got = dir.get_session(&tok).unwrap().unwrap();
    assert_eq!(got.identity.uuid, id.uuid);
    assert_eq!(got.metadata, None);
}

#[test]
fn token_is_trimmed_before_use_as_key() {
    let mut dir = Directory::new();
    let id = identity_of("11112222-3333-4444-5555-666677778888");
    dir.create_session(&token_of("  tok123  "), &id, None, 60).unwrap();
    let got = dir.get_session(&token_of("\ttok123\n")).unwrap();
    assert!(got.is_some());
    assert_eq!(got.unwrap().identity.uuid, id.uuid);
}

#[test]
fn expiry_makes_session_absent() {
    let mut dir = Directory::new();
    let tok = Session::new();
    let id = Uuid::new();
    dir.create_session(&tok, &id, Some("ua"), 1).unwrap();
    assert!(dir.get_session(&tok).unwrap().is_some());
    dir.advance_clock(1);
    assert!(dir.get_session(&tok).unwrap().is_none());
}

#[test]
fn overwrite_leaves_only_second_record() {
    let mut dir = Directory::new();
    let tok = Session::new();
    let id = Uuid::new();
    dir.create_session(&tok, &id, Some("first"), 60).unwrap();
    dir.create_session(&tok, &id, Some("second"), 60).unwrap();
    let got = dir.get_session(&tok).unwrap().unwrap();
    assert_eq!(got.metadata.as_deref(), Some("second"));
}

#[test]
fn enumeration_yields_exactly_that_identitys_live_tokens() {
    let mut dir = Directory::new();
    let id = Uuid::new();
    let other = Uuid::new();
    let t1 = Session::new();
    let t2 = Session::new();
    let t3 = Session::new();
    let t4 = Session::new();
    dir.create_session(&t1, &id, Some("a"), 60).unwrap();
    dir.create_session(&t2, &id, Some("b"), 60).unwrap();
    dir.create_session(&t3, &id, Some("c"), 60).unwrap();
    dir.create_session(&t4, &other, Some("d"), 60).unwrap();
    let listed = dir.list_sessions_for_identity(&id).unwrap();
    let mut got: Vec<String> = listed.iter().map(|s| String::from(s.session())).collect();
    got.sort();
    let mut want = vec![
        String::from(t1.session()),
        String::from(t2.session()),
        String::from(t3.session()),
    ];
    want.sort();
    assert_eq!(got, want);
}

#[test]
fn enumeration_skips_expired_sessions() {
    let mut dir = Directory::new();
    let id = Uuid::new();
    let short = Session::new();
    let long = Session::new();
    dir.create_session(&short, &id, None, 1).unwrap();
    dir.create_session(&long, &id, None, 100).unwrap();
    dir.advance_clock(5);
    let listed = dir.list_sessions_for_identity(&id).unwrap();
    assert_eq!(listed.len(), 1);
    assert_eq!(listed[0].session(), long.session());
}

#[test]
fn zero_ttl_is_rejected_with_no_write() {
    let mut dir = Directory::new();
    let tok = Session::new();
    let id = Uuid::new();
    let r = dir.create_session(&tok, &id, Some("ua"), 0);
    assert_eq!(r, Err(Error::InvalidTtl));
    assert!(dir.get_session(&tok).unwrap().is_none());
}

#[test]
fn concrete_scenario_write_read_overwrite() {
    let mut dir = Directory::new();
    let id = identity_of("11112222-3333-4444-5555-666677778888");
    let tok = token_of(&"A".repeat(64));
    assert_eq!(dir.create_session(&tok, &id, Some("Mozilla/5.0"), 2400), Ok(()));
    let first = dir.get_session(&tok).unwrap().unwrap();
    assert_eq!(first.identity.uuid, "11112222-3333-4444-5555-666677778888");
    assert_eq!(first.metadata.as_deref(), Some("Mozilla/5.0"));
    assert_eq!(dir.create_session(&tok, &id, Some("Safari"), 3400), Ok(()));
    let second = dir.get_session(&tok).unwrap().unwrap();
    assert_eq!(second.identity.uuid, "11112222-3333-4444-5555-666677778888");
    assert_eq!(second.metadata.as_deref(), Some("Safari"));
}
