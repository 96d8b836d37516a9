use nt_relay::config::allowed_versions;
use nt_relay::config::config_from_env;
use nt_relay::config::empty_string;
use nt_relay::config::env_csv;
use nt_relay::config::env_string;
use nt_relay::config::udp_bind_address;
use nt_relay::config::warn_all_versions_allowed;
use nt_relay::config::warn_no_apps_allowed;
use nt_relay::config::whitelist;
use nt_relay::text::split_commas;

fn s(v: &str) -> Option<String> {
    Some(v.to_string())
}

#[test]
fn env_string_trims_and_drops_empty() {
    assert_eq!(env_string(s("  value \n")), s("value"));
    assert_eq!(env_string(s("   ")), None);
    assert_eq!(env_string(None), None);
}

#[test]
fn env_csv_splits_on_commas() {
    assert_eq!(env_csv(s("a,b,c")), Some(vec!["a".to_string(), "b".to_string(), "c".to_string()]));
    assert_eq!(env_csv(s("a")), Some(vec!["a".to_string()]));
    assert_eq!(env_csv(s("")), None);
    assert_eq!(env_csv(None), None);
}

#[test]
fn env_csv_trims_items_and_drops_empty_ones() {
    assert_eq!(env_csv(s(" a , ,b,, ")), Some(vec!["a".to_string(), "b".to_string()]));
    assert_eq!(env_csv(s(", ,")), None);
}

#[test]
fn split_commas_keeps_empty_pieces() {
    assert_eq!(split_commas("a,,b,"), vec!["a", "", "b", ""]);
    assert_eq!(split_commas(""), vec![""]);
}

#[test]
fn defaults() {
    assert_eq!(udp_bind_address(), "0.0.0.0:8080");
    assert!(allowed_versions().is_empty());
    assert!(whitelist().is_empty());
    assert_eq!(empty_string(), "");
}

#[test]
fn config_uses_defaults_for_unset_values() {
    let cfg = config_from_env(None, None, None, None, None, None);
    assert_eq!(cfg.udp_bind_address, "0.0.0.0:8080");
    assert!(cfg.allowed_versions.is_empty());
    assert!(cfg.whitelist.is_empty());
    assert_eq!(cfg.relay_id, "");
    assert!(warn_all_versions_allowed(&cfg));
    assert!(warn_no_apps_allowed(&cfg));
}

#[test]
fn config_reads_given_values() {
    let cfg = config_from_env(
        s("127.0.0.1:9000"),
        s("1.0, 1.1"),
        s("tok"),
        s(" https://example.test "),
        s("secret"),
        s("relay-1"),
    );
    assert_eq!(cfg.udp_bind_address, "127.0.0.1:9000");
    assert_eq!(cfg.allowed_versions, vec!["1.0", "1.1"]);
    assert_eq!(cfg.whitelist, vec!["tok"]);
    assert_eq!(cfg.remote_whitelist_endpoint, "https://example.test");
    assert_eq!(cfg.remote_whitelist_token, "secret");
    assert_eq!(cfg.relay_id, "relay-1");
    assert!(!warn_all_versions_allowed(&cfg));
    assert!(!warn_no_apps_allowed(&cfg));
}

#[test]
fn env_string_trims_unicode_white_space() {
    assert_eq!(env_string(s("\u{3000}\u{a0}x y\u{2028}\t")), Some("x y".to_string()));
    assert_eq!(env_string(s("\u{85}\u{200a}")), None);
}
