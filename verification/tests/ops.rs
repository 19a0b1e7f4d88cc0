use jcm::cert::FetchedCert;
use jcm::cli::{ChainTarget, ElevateMode, GlobalOpts};
use jcm::error::JcmError;
use jcm::keystore::KeystoreEntry;
use jcm::ops::{
    add_needs_mutation, format_add_plan, format_remove_plan, plan_add, plan_remove,
    plan_would_mutate_add, plan_would_mutate_remove, resolve_remove_aliases, sort_strings,
    MutationKind,
};

fn opts() -> GlobalOpts {
    GlobalOpts {
        quiet: false,
        verbose: false,
        java_home: None,
        cacerts: None,
        store_pass: None,
        chain: ChainTarget::Root,
        alias_prefix: "jcm-".to_string(),
        elevate: ElevateMode::Auto,
    }
}

fn store(aliases: &[&str]) -> Vec<KeystoreEntry> {
    aliases
        .iter()
        .map(|a| KeystoreEntry { alias: a.to_string(), fingerprint_sha256: None, managed: a.starts_with("jcm-") })
        .collect()
}

fn cert(index: usize, self_signed: bool) -> FetchedCert {
    FetchedCert {
        der: vec![],
        pem: String::new(),
        fingerprint_sha256: format!("FP{index}"),
        subject: format!("CN=c{index}"),
        issuer: "CN=r".to_string(),
        not_before: String::new(),
        not_after: String::new(),
        is_self_signed: self_signed,
        index,
    }
}

#[test]
fn remove_aliases_resolution() {
    let s = store(&["jcm-api", "jcm-api-1", "other"]);
    assert_eq!(resolve_remove_aliases(&s, "api", "jcm-"), vec!["jcm-api"]);
    let s = store(&["jcm-api-1", "jcm-api-0", "jcm-apix", "other"]);
    assert_eq!(resolve_remove_aliases(&s, "api", "jcm-"), vec!["jcm-api-0", "jcm-api-1"]);
    assert!(resolve_remove_aliases(&s, "none", "jcm-").is_empty());
    assert_eq!(sort_strings(vec!["b".into(), "a".into(), "b".into()]), vec!["a", "b", "b"]);
}

#[test]
fn add_plans() {
    let chain = vec![cert(0, false), cert(1, true)];
    let p = plan_add(&store(&["x"]), &chain, &opts(), "api", "https://a.org", ChainTarget::Root).unwrap();
    assert_eq!(p.kind, MutationKind::Add);
    assert_eq!(p.certs.len(), 1);
    assert_eq!(p.certs[0].keystore_alias, "jcm-api");
    assert!(plan_would_mutate_add(&p));
    assert!(add_needs_mutation(&p, false) && !add_needs_mutation(&p, true));
    assert_eq!(
        format_add_plan(&p, true),
        "would add api from https://a.org (chain=root)\n  jcm-api | CN=c1 | FP1"
    );
    let p = plan_add(&store(&["jcm-api"]), &chain, &opts(), "api", "https://a.org", ChainTarget::Root).unwrap();
    assert_eq!(p.kind, MutationKind::Skip);
    assert!(!add_needs_mutation(&p, false));
    let p = plan_add(&store(&["jcm-api-0"]), &chain, &opts(), "api", "https://a.org", ChainTarget::Root).unwrap();
    assert_eq!(p.kind, MutationKind::Update);
    assert!(format_add_plan(&p, false).starts_with("did update api"));
    assert!(matches!(
        plan_add(&store(&[]), &chain, &opts(), "bad alias", "u", ChainTarget::Root),
        Err(JcmError::InvalidAlias { .. })
    ));
}

#[test]
fn remove_plans() {
    let p = plan_remove(&store(&["jcm-api-int-0", "jcm-api"]), &opts(), "api").unwrap();
    assert_eq!(p.keystore_aliases, vec!["jcm-api"]);
    assert!(plan_would_mutate_remove(&p));
    assert_eq!(format_remove_plan(&p, true), "would remove api\n  jcm-api");
    assert_eq!(format_remove_plan(&p, false), "removed api\n  jcm-api");
    match plan_remove(&store(&["other"]), &opts(), "api") {
        Err(JcmError::AliasNotFound { alias, keystore_alias }) => {
            assert_eq!(alias, "api");
            assert_eq!(keystore_alias, "jcm-api");
        }
        _ => panic!("expected not found"),
    }
}

#[test]
fn removal_never_picks_unmanaged_aliases() {
    let store = store(&["actalisauthenticationrootca [jdk]", "jcm-api-int-0", "jcm-api-0", "api-0"]);
    let picked = resolve_remove_aliases(&store, "api", "jcm-");
    assert_eq!(picked, vec!["jcm-api-0".to_string(), "jcm-api-int-0".to_string()]);
    assert!(picked.iter().all(|a| a.starts_with("jcm-")));
}

#[test]
fn removal_follows_the_naming_convention_only() {
    let only_other = store(&["jcm-api-v2"]);
    assert!(resolve_remove_aliases(&only_other, "api", "jcm-").is_empty());
    assert!(matches!(plan_remove(&only_other, &opts(), "api"), Err(JcmError::AliasNotFound { .. })));
    let mixed = store(&["jcm-api-v2", "jcm-api-01", "jcm-api-int-0", "jcm-api-12", "jcm-api-int-x", "jcm-api-"]);
    assert_eq!(
        resolve_remove_aliases(&mixed, "api", "jcm-"),
        vec!["jcm-api-12".to_string(), "jcm-api-int-0".to_string()]
    );
}

#[test]
fn add_beside_another_aliases_entry_is_a_plain_add() {
    let chain = vec![cert(0, false), cert(1, true)];
    let p = plan_add(&store(&["jcm-api-v2"]), &chain, &opts(), "api", "https://a.org", ChainTarget::Root).unwrap();
    assert_eq!(p.kind, MutationKind::Add);
}
