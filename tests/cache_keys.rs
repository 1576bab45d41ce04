use backend::keys;

#[test]
fn test_cache_key_generation() {
    let key = keys::anchor_list(50, 0);
    assert_eq!(key, "anchor:list:50:0");
}

#[test]
fn test_cache_key_builders() {
    assert_eq!(keys::anchor_list(50, 0), "anchor:list:50:0");
    assert_eq!(keys::anchor_detail("123"), "anchor:detail:123");
    assert_eq!(keys::anchor_by_account("GA123"), "anchor:account:GA123");
    assert_eq!(keys::dashboard_stats(), "dashboard:stats");
    assert_eq!(keys::anchor_pattern(), "anchor:*");
}

#[test]
fn corridor_list_key_keeps_parameter_order() {
    assert_eq!(keys::corridor_list(10, 0, "x"), "corridor:list:10:0:x");
    assert_ne!(keys::corridor_list(0, 10, "x"), keys::corridor_list(10, 0, "x"));
    assert_ne!(keys::anchor_list(0, 50), keys::anchor_list(50, 0));
}

#[test]
fn anchor_list_key_is_deterministic() {
    assert_eq!(keys::anchor_list(7, 21), keys::anchor_list(7, 21));
    assert_eq!(keys::anchor_list(1234567890, 10), "anchor:list:1234567890:10");
}

#[test]
fn list_keys_write_negative_and_extreme_numbers() {
    assert_eq!(keys::anchor_list(-5, 0), "anchor:list:-5:0");
    assert_eq!(
        keys::anchor_list(i64::MIN, i64::MAX),
        "anchor:list:-9223372036854775808:9223372036854775807"
    );
}

#[test]
fn remaining_key_builders() {
    assert_eq!(keys::anchor_assets("a1"), "anchor:assets:a1");
    assert_eq!(keys::corridor_detail("EURC:i->USDC:j"), "corridor:detail:EURC:i->USDC:j");
    assert_eq!(keys::metrics_overview(), "metrics:overview");
    assert_eq!(keys::corridor_pattern(), "corridor:*");
    assert_eq!(keys::dashboard_pattern(), "dashboard:*");
    assert_eq!(keys::metrics_pattern(), "metrics:*");
}
