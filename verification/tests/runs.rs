use jcm::cert::FetchedCert;
use jcm::cli::{ChainTarget, ElevateMode, GlobalOpts};
use jcm::elevation::ElevationPlan;
use jcm::error::JcmError;
use jcm::keystore::KeystoreEntry;
use jcm::ops::{
    run_add, run_remove, AddAction, AddEvent, AddRun, MutationKind, RemoveAction, RemoveEvent,
    RemoveRun,
};

fn opts() -> GlobalOpts {
    GlobalOpts {
        quiet: false,
        verbose: false,
        java_home: None,
        cacerts: None,
        store_pass: None,
        chain: ChainTarget::Root,
        alias_prefix: "jcm-".to_string(),
        elevate: ElevateMode::Auto,
    }
}

fn store(aliases: &[&str]) -> Vec<KeystoreEntry> {
    aliases
        .iter()
        .map(|a| KeystoreEntry { alias: a.to_string(), fingerprint_sha256: None, managed: a.starts_with("jcm-") })
        .collect()
}

fn cert(index: usize, self_signed: bool) -> FetchedCert {
    FetchedCert {
        der: vec![index as u8],
        pem: format!("PEM{index}"),
        fingerprint_sha256: format!("FP{index}"),
        subject: format!("CN=c{index}"),
        issuer: "CN=r".to_string(),
        not_before: String::new(),
        not_after: String::new(),
        is_self_signed: self_signed,
        index,
    }
}

fn chain() -> Vec<FetchedCert> {
    vec![cert(0, false), cert(1, false), cert(2, true)]
}

fn step_add(run: AddRun, event: AddEvent) -> (AddRun, AddAction) {
    assert!(run.accepts(&event));
    run_add(run, event)
}

fn step_remove(run: RemoveRun, event: RemoveEvent) -> (RemoveRun, RemoveAction) {
    assert!(run.accepts(&event));
    run_remove(run, event)
}

#[test]
fn add_with_invalid_alias_fails_before_any_io() {
    let (_, action) = AddRun::new(&opts(), "bad alias", "https://x.example", ChainTarget::Root, false);
    assert!(matches!(action, AddAction::Fail(JcmError::InvalidAlias { .. })));
}

#[test]
fn add_dry_run_reports_the_plan_without_changes() {
    let (run, action) = AddRun::new(&opts(), "api", "https://x.example", ChainTarget::Root, true);
    assert!(matches!(action, AddAction::ListStore));
    let (run, action) = step_add(run, AddEvent::Listed(store(&["cacert [jdk]"])));
    assert!(matches!(action, AddAction::FetchChain));
    let (run, action) = step_add(run, AddEvent::Fetched(chain()));
    match action {
        AddAction::Report(plan) => {
            assert_eq!(plan.kind, MutationKind::Add);
            assert_eq!(plan.certs.len(), 1);
            assert_eq!(plan.certs[0].keystore_alias, "jcm-api");
        }
        other => panic!("unexpected action {other:?}"),
    }
    assert!(!run.accepts(&AddEvent::Applied));
}

#[test]
fn add_of_present_certificate_is_skipped() {
    let (run, _) = AddRun::new(&opts(), "api", "https://x.example", ChainTarget::Root, false);
    let (run, _) = step_add(run, AddEvent::Listed(store(&["jcm-api"])));
    let (_, action) = step_add(run, AddEvent::Fetched(chain()));
    assert!(matches!(action, AddAction::Report(plan) if plan.kind == MutationKind::Skip));
}

#[test]
fn add_replaces_old_variants_then_imports_and_checks() {
    let before = store(&["cacert [jdk]", "jcm-api-0", "jcm-api-1"]);
    let (run, _) = AddRun::new(&opts(), "api", "https://x.example", ChainTarget::Full, false);
    let (run, _) = step_add(run, AddEvent::Listed(before.clone_entries()));
    let (run, action) = step_add(run, AddEvent::Fetched(chain()));
    assert!(matches!(action, AddAction::PrepareMutation));
    let (run, action) = step_add(run, AddEvent::Prepared(ElevationPlan::NeedElevation));
    assert!(matches!(action, AddAction::ListStore));
    let (run, action) = step_add(run, AddEvent::Listed(before.clone_entries()));
    assert!(matches!(action, AddAction::ListStore));
    let (run, action) = step_add(run, AddEvent::Listed(before.clone_entries()));
    assert!(matches!(&action, AddAction::Delete { keystore_alias, elevation: ElevationPlan::NeedElevation } if keystore_alias == "jcm-api-0"));
    let (run, action) = step_add(run, AddEvent::Applied);
    assert!(matches!(&action, AddAction::Delete { keystore_alias, .. } if keystore_alias == "jcm-api-1"));
    let (run, action) = step_add(run, AddEvent::Applied);
    assert!(matches!(action, AddAction::FetchChain));
    let (run, action) = step_add(run, AddEvent::Fetched(chain()));
    let mut run = run;
    let mut action = action;
    let mut imported = Vec::new();
    while let AddAction::Import { keystore_alias, pem, elevation } = &action {
        assert_eq!(*elevation, ElevationPlan::NeedElevation);
        imported.push((keystore_alias.clone(), pem.clone()));
        let (r, a) = step_add(run, AddEvent::Applied);
        run = r;
        action = a;
    }
    assert_eq!(
        imported,
        vec![
            ("jcm-api-0".to_string(), "PEM0".to_string()),
            ("jcm-api-1".to_string(), "PEM1".to_string()),
            ("jcm-api-2".to_string(), "PEM2".to_string()),
        ]
    );
    assert!(matches!(action, AddAction::ListStore));
    let after = store(&["cacert [jdk]", "jcm-api-0", "jcm-api-1", "jcm-api-2"]);
    let (_, action) = step_add(run, AddEvent::Listed(after));
    assert!(matches!(action, AddAction::Report(plan) if plan.kind == MutationKind::Update));
}

#[test]
fn add_fails_when_a_builtin_alias_disappears() {
    let (run, _) = AddRun::new(&opts(), "api", "https://x.example", ChainTarget::Root, false);
    let (run, _) = step_add(run, AddEvent::Listed(store(&["cacert [jdk]"])));
    let (run, _) = step_add(run, AddEvent::Fetched(chain()));
    let (run, _) = step_add(run, AddEvent::Prepared(ElevationPlan::Direct));
    let (run, _) = step_add(run, AddEvent::Listed(store(&["cacert [jdk]"])));
    let (run, action) = step_add(run, AddEvent::Listed(store(&["cacert [jdk]"])));
    assert!(matches!(action, AddAction::FetchChain));
    let (run, action) = step_add(run, AddEvent::Fetched(chain()));
    assert!(matches!(&action, AddAction::Import { keystore_alias, pem, .. } if keystore_alias == "jcm-api" && pem == "PEM2"));
    let (run, _) = step_add(run, AddEvent::Applied);
    let (_, action) = step_add(run, AddEvent::Listed(store(&["jcm-api"])));
    assert!(matches!(action, AddAction::Fail(JcmError::BuiltinAliasMissing { alias }) if alias == "cacert [jdk]"));
}

#[test]
fn add_with_missing_chain_index_fails() {
    let (run, _) = AddRun::new(&opts(), "api", "https://x.example", ChainTarget::Index4, false);
    let (run, _) = step_add(run, AddEvent::Listed(store(&[])));
    let (_, action) = step_add(run, AddEvent::Fetched(chain()));
    assert!(matches!(action, AddAction::Fail(JcmError::ChainIndexUnavailable { index: 4 })));
}

#[test]
fn remove_dry_run_reports_without_changes() {
    let (run, _) = RemoveRun::new(&opts(), "api", true);
    let (_, action) = step_remove(run, RemoveEvent::Listed(store(&["jcm-api", "other"])));
    match action {
        RemoveAction::Report(plan) => assert_eq!(plan.keystore_aliases, vec!["jcm-api".to_string()]),
        other => panic!("unexpected action {other:?}"),
    }
}

#[test]
fn remove_of_unknown_alias_fails() {
    let (run, _) = RemoveRun::new(&opts(), "api", false);
    let (_, action) = step_remove(run, RemoveEvent::Listed(store(&["other"])));
    assert!(matches!(action, RemoveAction::Fail(JcmError::AliasNotFound { .. })));
}

#[test]
fn remove_deletes_each_planned_alias_then_checks() {
    let listing = store(&["cacert [jdk]", "jcm-api-int-0", "jcm-api-0"]);
    let (run, _) = RemoveRun::new(&opts(), "api", false);
    let (run, action) = step_remove(run, RemoveEvent::Listed(listing.clone_entries()));
    assert!(matches!(action, RemoveAction::PrepareMutation));
    let (run, _) = step_remove(run, RemoveEvent::Prepared(ElevationPlan::Direct));
    let (run, action) = step_remove(run, RemoveEvent::Listed(listing.clone_entries()));
    assert!(matches!(&action, RemoveAction::Delete { keystore_alias, .. } if keystore_alias == "jcm-api-0"));
    let (run, action) = step_remove(run, RemoveEvent::Applied);
    assert!(matches!(&action, RemoveAction::Delete { keystore_alias, .. } if keystore_alias == "jcm-api-int-0"));
    let (run, action) = step_remove(run, RemoveEvent::Applied);
    assert!(matches!(action, RemoveAction::ListStore));
    let (_, action) = step_remove(run, RemoveEvent::Listed(store(&["cacert [jdk]"])));
    assert!(matches!(action, RemoveAction::Report(plan) if plan.alias == "api"));
}

trait CloneEntries {
    fn clone_entries(&self) -> Vec<KeystoreEntry>;
}

impl CloneEntries for Vec<KeystoreEntry> {
    fn clone_entries(&self) -> Vec<KeystoreEntry> {
        self.iter()
            .map(|e| KeystoreEntry { alias: e.alias.clone(), fingerprint_sha256: e.fingerprint_sha256.clone(), managed: e.managed })
            .collect()
    }
}
