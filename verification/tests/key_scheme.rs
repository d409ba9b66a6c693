//! The on-disk contract: composite keys, scan patterns, and the
//! multi-field record layout.

use cryo_sessions::keys::{
    encode_record_fields, parse_record_fields, scan_pattern, session_key, token_from_key,
    token_is_key_safe,
};
use cryo_sessions::{Error, Session, Uuid};

fn identity_of(s: &str) -> Uuid {
    Uuid::from(String::from(s))
}

#[test]
fn session_key_is_identity_colon_trimmed_token() {
    let id = identity_of("11112222-3333-4444-5555-666677778888");
    let tok = Session::from(String::from("  tok123  "));
    let key = session_key(&id, &tok);
    assert_eq!(key, "11112222-3333-4444-5555-666677778888:tok123");
}

#[test]
fn scan_pattern_is_identity_colon_star() {
    let id = identity_of("11112222-3333-4444-5555-666677778888");
    assert_eq!(scan_pattern(&id), "11112222-3333-4444-5555-666677778888:*");
}

#[test]
fn token_from_key_inverts_session_key() {
    let id = identity_of("11112222-3333-4444-5555-666677778888");
    let tok = Session::new();
    let key = session_key(&id, &tok);
    assert_eq!(token_from_key(&key).as_deref(), Some(tok.session()));
}

#[test]
fn token_from_key_takes_suffix_after_last_delimiter() {
    assert_eq!(token_from_key("id:with:colons:tok").as_deref(), Some("tok"));
    assert_eq!(token_from_key("id:").as_deref(), Some(""));
}

#[test]
fn key_without_delimiter_is_not_a_session_key() {
    assert_eq!(token_from_key("no-delimiter-here"), None);
}

#[test]
fn generated_tokens_are_key_safe() {
    for _ in 0..20 {
        assert!(token_is_key_safe(&Session::new()));
    }
    assert!(token_is_key_safe(&Session::from(String::from("  plain  "))));
    assert!(!token_is_key_safe(&Session::from(String::from("has:colon"))));
}

#[test]
fn record_fields_round_trip() {
    let id = identity_of("11112222-3333-4444-5555-666677778888");
    let fields = encode_record_fields(&id, Some("Mozilla/5.0"));
    assert_eq!(fields.len(), 2);
    assert_eq!(fields[0].0, "uuid");
    assert_eq!(fields[0].1, id.uuid);
    assert_eq!(fields[1].0, "user_agent");
    assert_eq!(fields[1].1, "Mozilla/5.0");
    let rec = parse_record_fields(&fields).unwrap().unwrap();
    assert_eq!(rec.identity.uuid, id.uuid);
    assert_eq!(rec.metadata.as_deref(), Some("Mozilla/5.0"));
}

#[test]
fn record_fields_without_descriptor() {
    let id = identity_of("11112222-3333-4444-5555-666677778888");
    let fields = encode_record_fields(&id, None);
    assert_eq!(fields.len(), 1);
    let rec = parse_record_fields(&fields).unwrap().unwrap();
    assert_eq!(rec.identity.uuid, id.uuid);
    assert_eq!(rec.metadata, None);
}

#[test]
fn empty_field_list_means_no_record() {
    let fields: Vec<(String, String)> = Vec::new();
    assert!(parse_record_fields(&fields).unwrap().is_none());
}

#[test]
fn record_missing_identity_field_is_invalid() {
    let fields = vec![(String::from("user_agent"), String::from("Mozilla/5.0"))];
    let r = parse_record_fields(&fields);
    assert!(matches!(r, Err(Error::InvalidRecord)));
}

#[test]
fn first_binding_of_a_field_wins() {
    let fields = vec![
        (String::from("uuid"), String::from("first-identity")),
        (String::from("uuid"), String::from("second-identity")),
    ];
    let rec = parse_record_fields(&fields).unwrap().unwrap();
    assert_eq!(rec.identity.uuid, "first-identity");
    assert_eq!(rec.metadata, None);
}
