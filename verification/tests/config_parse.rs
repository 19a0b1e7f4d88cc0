use jcm::cli::ChainTarget;
use jcm::config::{
    json_chain_to_target, load_merged_configs, parse_json, parse_txt, resolve_format,
    ConfigFormat, JsonChain, JsonEntry, JsonRoot, TrustEntry,
};
use jcm::error::JcmError;

fn te(alias: &str, url: &str, source: &str) -> TrustEntry {
    TrustEntry { alias: alias.to_string(), url: url.to_string(), chain: ChainTarget::Root, source: source.to_string() }
}

#[test]
fn parse_txt_with_chain() {
    let entries = parse_txt(
        "api https://example.com leaf\n# comment\nroot-ca https://example.org\n",
        "trust.txt",
        ChainTarget::Root,
    )
    .unwrap();
    assert_eq!(entries.len(), 2);
    assert_eq!(entries[0].alias, "api");
    assert_eq!(entries[0].chain, ChainTarget::Leaf);
}

#[test]
fn parse_json_entries() {
    let root = JsonRoot::Wrapped {
        entries: vec![JsonEntry {
            alias: "a".to_string(),
            url: "https://example.com".to_string(),
            chain: Some(JsonChain::Named("root".to_string())),
        }],
    };
    let entries = parse_json(root, "trust.json", ChainTarget::Root).unwrap();
    assert_eq!(entries.len(), 1);
    assert_eq!(entries[0].alias, "a");
}

#[test]
fn txt_errors() {
    match parse_txt("\n  \nonly-alias\n", "t.txt", ChainTarget::Root) {
        Err(JcmError::ConfigLine { source, line }) => {
            assert_eq!(source, "t.txt");
            assert_eq!(line, 3);
        }
        _ => panic!("expected a line error"),
    }
    assert!(matches!(parse_txt("a ftp://x.org\n", "t", ChainTarget::Root), Err(JcmError::UrlScheme { .. })));
    assert!(matches!(parse_txt("a not-a-url\n", "t", ChainTarget::Root), Err(JcmError::InvalidUrl { .. })));
    let e = parse_txt("a https://x.org bogus\r\n", "t", ChainTarget::Full).unwrap();
    assert_eq!(e[0].chain, ChainTarget::Full);
    assert_eq!(e[0].url, "https://x.org");
}

#[test]
fn json_variants() {
    assert_eq!(json_chain_to_target(JsonChain::Index(7)), ChainTarget::Index4);
    assert_eq!(json_chain_to_target(JsonChain::Named("weird".to_string())), ChainTarget::Root);
    let root = JsonRoot::Table(vec![("x".to_string(), "http://h.org".to_string())]);
    let es = parse_json(root, "m.json", ChainTarget::Leaf).unwrap();
    assert_eq!(es[0].chain, ChainTarget::Leaf);
    let bad = JsonRoot::List(vec![JsonEntry { alias: "a".into(), url: "https://".into(), chain: None }]);
    assert!(parse_json(bad, "m.json", ChainTarget::Leaf).is_err());
    assert_eq!(resolve_format(ConfigFormat::Auto, Some("json")), ConfigFormat::Json);
    assert_eq!(resolve_format(ConfigFormat::Auto, None), ConfigFormat::Txt);
    assert_eq!(resolve_format(ConfigFormat::Txt, Some("json")), ConfigFormat::Txt);
}

#[test]
fn merge_keeps_last_definition_sorted() {
    let files = vec![
        vec![te("b", "https://b1.org", "f1"), te("a", "https://a1.org", "f1")],
        vec![te("b", "https://b2.org", "f2"), te("c", "https://c.org", "f2")],
    ];
    let merged = load_merged_configs(&files, false).unwrap();
    let got: Vec<(String, String)> = merged.into_iter().map(|e| (e.alias, e.url)).collect();
    assert_eq!(
        got,
        vec![
            ("a".to_string(), "https://a1.org".to_string()),
            ("b".to_string(), "https://b2.org".to_string()),
            ("c".to_string(), "https://c.org".to_string()),
        ]
    );
    match load_merged_configs(&files, true) {
        Err(JcmError::DuplicateAlias { alias, first, second }) => {
            assert_eq!((alias.as_str(), first.as_str(), second.as_str()), ("b", "f1", "f2"));
        }
        _ => panic!("expected a duplicate"),
    }
}
