//! The identifier and token generators: format, alphabet and
//! probabilistic uniqueness.

use cryo_sessions::{Session, SessionInfo, Uuid};

fn assert_uuid_format(s: &str) {
    assert_eq!(s.len(), 36);
    for (i, c) in s.chars().enumerate() {
        if i == 8 || i == 13 || i == 18 || i == 23 {
            assert_eq!(c, '-');
        } else {
            assert!(c.is_ascii_hexdigit() && !c.is_ascii_uppercase());
        }
    }
    let cs: Vec<char> = s.chars().collect();
    assert_eq!(cs[14], '4');
    assert!(cs[19] == '8' || cs[19] == '9' || cs[19] == 'a' || cs[19] == 'b');
}

#[test]
fn identifier_matches_canonical_format() {
    for _ in 0..100 {
        let id = Uuid::new();
        assert_uuid_format(&id.uuid);
    }
}

#[test]
fn identifiers_do_not_collide_in_bulk() {
    let mut seen: Vec<String> = (0..10_000).map(|_| Uuid::new().uuid).collect();
    seen.sort();
    for pair in seen.windows(2) {
        assert_ne!(pair[0], pair[1]);
    }
}

#[test]
fn default_identifier_is_well_formed() {
    let id = Uuid::default();
    assert_uuid_format(&id.uuid);
}

#[test]
fn identifier_reconstructs_verbatim() {
    let id = Uuid::from(String::from("11112222-3333-4444-5555-666677778888"));
    assert_eq!(id.uuid, "11112222-3333-4444-5555-666677778888");
}

#[test]
fn token_is_64_alphanumeric_chars() {
    for _ in 0..100 {
        let tok = Session::new();
        let s = tok.session();
        assert_eq!(s.len(), 64);
        assert!(s.chars().all(|c| c.is_ascii_alphanumeric()));
    }
}

#[test]
fn default_token_is_well_formed() {
    let tok = Session::default();
    assert_eq!(tok.session().len(), 64);
    assert!(tok.session().chars().all(|c| c.is_ascii_alphanumeric()));
}

#[test]
fn token_reconstructs_verbatim() {
    let tok = Session::from(String::from("abc"));
    assert_eq!(tok.session(), "abc");
    let tok2 = Session::from_string(String::from("  xyz  "));
    assert_eq!(tok2.session(), "  xyz  ");
}

#[test]
fn session_info_carries_identity_and_descriptor() {
    let id = Uuid::new();
    let expect = id.uuid.clone();
    let info = SessionInfo::new(id, String::from("Mozilla/5.0"));
    assert_eq!(info.uuid().uuid, expect);
    assert_eq!(info.user_agent(), "Mozilla/5.0");
}
