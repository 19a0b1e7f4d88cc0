use jcm::cli::ChainTarget;

#[test]
fn chain_target_parsing() {
    assert_eq!(ChainTarget::from_str_loose("ROOT"), Some(ChainTarget::Root));
    assert_eq!(ChainTarget::from_str_loose("Intermediate"), Some(ChainTarget::Intermediate));
    assert_eq!(ChainTarget::from_str_loose("3"), Some(ChainTarget::Index3));
    assert_eq!(ChainTarget::from_str_loose("7"), Some(ChainTarget::Index4));
    assert_eq!(ChainTarget::from_str_loose("+1"), Some(ChainTarget::Index1));
    assert_eq!(ChainTarget::from_str_loose("-1"), None);
    assert_eq!(ChainTarget::from_str_loose("99999999999999999999999"), None);
    assert_eq!(ChainTarget::from_str_loose("nope"), None);
    assert_eq!(ChainTarget::from_str_loose(""), None);
}

#[test]
fn chain_target_round_trips() {
    for t in [
        ChainTarget::Root,
        ChainTarget::Leaf,
        ChainTarget::Intermediate,
        ChainTarget::Full,
        ChainTarget::Index0,
        ChainTarget::Index1,
        ChainTarget::Index2,
        ChainTarget::Index3,
        ChainTarget::Index4,
    ] {
        assert_eq!(ChainTarget::from_str_loose(t.as_str()), Some(t));
    }
    assert_eq!(ChainTarget::from_index(9).index(), Some(4));
    assert_eq!(ChainTarget::from_index(2).index(), Some(2));
    assert_eq!(ChainTarget::Full.index(), None);
}
