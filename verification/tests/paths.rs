use jcm::error::JcmError;
use jcm::paths::{resolve_keystore_alias, validate_alias};

#[test]
fn resolve_keystore_alias_adds_prefix() {
    assert_eq!(resolve_keystore_alias("api", "jcm-"), "jcm-api");
    assert_eq!(resolve_keystore_alias("jcm-api", "jcm-"), "jcm-api");
}

#[test]
fn resolving_twice_changes_nothing() {
    let once = resolve_keystore_alias("svc", "jcm-");
    assert_eq!(resolve_keystore_alias(&once, "jcm-"), once);
}

#[test]
fn alias_validation() {
    assert!(validate_alias("my-api_2").is_ok());
    assert!(matches!(validate_alias(""), Err(JcmError::InvalidAlias { .. })));
    match validate_alias("bad alias") {
        Err(JcmError::InvalidAlias { alias }) => assert_eq!(alias, "bad alias"),
        _ => panic!("expected invalid alias"),
    }
    assert!(validate_alias("é").is_err());
}
