use dtmgr::config::DtMgrConfig;
use dtmgr::digest::hash_config;
use dtmgr::digest::should_rebuild;
use sha3::Digest;

fn names(strs: &[&str]) -> Vec<String> {
    strs.iter().map(|s| s.to_string()).collect()
}

#[test]
fn digest_is_lowercase_hex_of_a_256_bit_hash() {
    let config = DtMgrConfig::new(names(&["foo"]));
    let digest = hash_config(&config).unwrap();
    assert_eq!(digest.len(), 64);
    assert!(digest.chars().all(|c| c.is_ascii_hexdigit() && !c.is_ascii_uppercase()));
}

#[test]
fn digest_matches_the_hash_of_the_canonical_encoding() {
    let config = DtMgrConfig::new(names(&["foo"]));
    let digest = hash_config(&config).unwrap();
    let encoded = postcard::to_stdvec(&names(&["foo"])).unwrap();
    let expected = hex::encode(sha3::Sha3_256::digest(encoded.as_slice()));
    assert_eq!(digest, expected);
}

#[test]
fn declaration_order_does_not_change_the_digest() {
    let one = DtMgrConfig::new(names(&["alpha", "beta", "gamma"]));
    let two = DtMgrConfig::new(names(&["gamma", "alpha", "beta", "alpha"]));
    assert_eq!(hash_config(&one).unwrap(), hash_config(&two).unwrap());
}

#[test]
fn different_membership_changes_the_digest() {
    let one = DtMgrConfig::new(names(&["alpha", "beta"]));
    let two = DtMgrConfig::new(names(&["alpha"]));
    let three = DtMgrConfig::new(names(&[]));
    assert_ne!(hash_config(&one).unwrap(), hash_config(&two).unwrap());
    assert_ne!(hash_config(&two).unwrap(), hash_config(&three).unwrap());
}

#[test]
fn a_fresh_marker_short_circuits_the_rebuild() {
    let config = DtMgrConfig::new(names(&["foo", "bar"]));
    let marker = Some(hash_config(&config).unwrap());
    assert_eq!(should_rebuild(&marker, &config).unwrap(), false);
}

#[test]
fn a_missing_marker_forces_a_rebuild() {
    let config = DtMgrConfig::new(names(&["foo"]));
    assert_eq!(should_rebuild(&None, &config).unwrap(), true);
}

#[test]
fn a_stale_marker_forces_a_rebuild() {
    let config = DtMgrConfig::new(names(&["foo"]));
    let changed = DtMgrConfig::new(names(&["foo", "bar"]));
    let marker = Some(hash_config(&changed).unwrap());
    assert_eq!(should_rebuild(&marker, &config).unwrap(), true);
}
