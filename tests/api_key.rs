use std::collections::HashMap;

use root::api_key::{
    api_key_from_material, api_key_matches, api_key_member_id, bearer_token, generate_api_key,
    identity_verdict, issue_api_key_from_material, member_id_in_payload, KeyError,
};

/// A credential table keyed by member, with replace-on-issue.
struct Credentials {
    hashes: HashMap<i32, String>,
}

impl Credentials {
    fn new() -> Self {
        Credentials { hashes: HashMap::new() }
    }

    fn issue(&mut self, member_id: i32, material: &[u8]) -> String {
        let issued = issue_api_key_from_material(member_id, material, 4).expect("bcrypt hashing");
        self.hashes.insert(member_id, issued.hash);
        issued.key
    }

    fn verify(&self, key: &str) -> bool {
        match api_key_member_id(key) {
            Some(id) => api_key_matches(key, self.hashes.get(&id).map(|h| h.as_str())),
            None => false,
        }
    }
}

#[test]
fn key_layout_is_base64_of_member_and_material() {
    let key = api_key_from_material(7, &[0u8; 32]);
    assert_eq!(key, "N19BQUFBQUFBQUFBQUFBQUFBQUFBQUFBQUFBQUFBQUFBQUFBQUFBQUFBQUFB");
    assert_eq!(api_key_member_id(&key), Some(7));
}

#[test]
fn negative_member_ids_round_trip() {
    let key = api_key_from_material(-15, &[9u8; 32]);
    assert_eq!(api_key_member_id(&key), Some(-15));
}

#[test]
fn generated_keys_name_their_member_and_differ() {
    let a = generate_api_key(42).expect("randomness");
    let b = generate_api_key(42).expect("randomness");
    assert!(a.chars().all(|c| c.is_ascii_alphanumeric() || c == '-' || c == '_'));
    assert_eq!(api_key_member_id(&a), Some(42));
    assert_ne!(a, b);
}

#[test]
fn payload_parsing() {
    assert_eq!(member_id_in_payload("12_abc"), Some(12));
    assert_eq!(member_id_in_payload("12_a_b"), Some(12));
    assert_eq!(member_id_in_payload("12"), None);
    assert_eq!(member_id_in_payload("x_12"), None);
    assert_eq!(member_id_in_payload("_12"), None);
    assert_eq!(member_id_in_payload("99999999999_x"), None);
}

#[test]
fn malformed_keys_name_no_member() {
    assert_eq!(api_key_member_id(""), None);
    assert_eq!(api_key_member_id("!!!not base64!!!"), None);
    // base64 of "no-separator"
    assert_eq!(api_key_member_id("bm8tc2VwYXJhdG9y"), None);
    // base64 of the bytes ff fe, which are not UTF-8
    assert_eq!(api_key_member_id("__4"), None);
    assert_eq!(api_key_member_id("MV8"), Some(1));
    // padding, and non-canonical trailing bits, are refused
    assert_eq!(api_key_member_id("MV8="), None);
    assert_eq!(api_key_member_id("MV9"), None);
    // the standard alphabet's '+' and '/' are not part of a key
    assert_eq!(api_key_member_id("//4"), None);
}

#[test]
fn issued_key_verifies_and_every_mutation_fails() {
    let mut store = Credentials::new();
    let key = store.issue(5, &[3u8; 32]);
    assert!(store.verify(&key));
    let chars: Vec<char> = key.chars().collect();
    for i in 0..chars.len() {
        let mut mutated = chars.clone();
        mutated[i] = if chars[i] == 'A' { 'B' } else { 'A' };
        let mutated: String = mutated.into_iter().collect();
        assert!(!store.verify(&mutated), "mutation at {}", i);
    }
}

#[test]
fn key_of_member_without_credential_fails() {
    let mut store = Credentials::new();
    store.issue(5, &[3u8; 32]);
    let other = api_key_from_material(6, &[3u8; 32]);
    assert_eq!(api_key_member_id(&other), Some(6));
    assert!(!store.verify(&other));
    assert!(!api_key_matches(&other, None));
}

#[test]
fn malformed_key_fails_verification() {
    let mut store = Credentials::new();
    store.issue(5, &[3u8; 32]);
    assert!(!store.verify(""));
    assert!(!store.verify("garbage"));
}

#[test]
fn reissue_invalidates_previous_key() {
    let mut store = Credentials::new();
    let first = store.issue(8, &[1u8; 32]);
    let second = store.issue(8, &[2u8; 32]);
    assert!(!store.verify(&first));
    assert!(store.verify(&second));
}

#[test]
fn hash_with_bad_cost_fails() {
    assert!(issue_api_key_from_material(1, &[0u8; 32], 3).is_none());
    assert!(issue_api_key_from_material(1, &[0u8; 32], 32).is_none());
}

#[test]
fn malformed_hash_does_not_match() {
    let key = api_key_from_material(1, &[0u8; 32]);
    assert!(!api_key_matches(&key, Some("not a bcrypt hash")));
}

#[test]
fn bearer_tokens() {
    assert_eq!(bearer_token("Bearer abc"), Some("abc".to_string()));
    assert_eq!(bearer_token("bEaReR xyz"), Some("xyz".to_string()));
    assert_eq!(bearer_token("bearer "), Some(String::new()));
    assert_eq!(bearer_token("Basic abc"), None);
    assert_eq!(bearer_token("Bearer"), None);
    assert_eq!(bearer_token("Bearerx abc"), None);
}

#[test]
fn identity_check_fails_closed() {
    assert_eq!(identity_verdict(Some(true)), Ok(()));
    assert_eq!(identity_verdict(Some(false)), Err(KeyError::Auth));
    assert_eq!(identity_verdict(None), Err(KeyError::Upstream));
}

#[test]
fn keys_too_long_for_bcrypt_are_not_issued() {
    let nine = issue_api_key_from_material(123456789, &[0u8; 32], 4).expect("71-character key");
    assert_eq!(nine.key.len(), 71);
    assert!(nine.hash.starts_with('$'));
    assert_ne!(nine.hash, nine.key);
    assert!(issue_api_key_from_material(1234567890, &[0u8; 32], 4).is_none());
    assert!(issue_api_key_from_material(-123456789, &[0u8; 32], 4).is_none());
}

#[test]
fn every_mutation_of_the_longest_key_fails() {
    let mut store = Credentials::new();
    let key = store.issue(123456789, &[7u8; 32]);
    assert!(store.verify(&key));
    let chars: Vec<char> = key.chars().collect();
    for i in 0..chars.len() {
        let mut mutated = chars.clone();
        mutated[i] = if chars[i] == 'A' { 'B' } else { 'A' };
        let mutated: String = mutated.into_iter().collect();
        assert!(!store.verify(&mutated), "mutation at {}", i);
    }
}
