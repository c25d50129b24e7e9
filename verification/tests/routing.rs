use httpr::error::HttpError;
use httpr::routing::{
    compute_pattern_priority, get_env_proxy_url, is_no_proxy, parse_sync_mounts, select_transport,
    url_matches_pattern, ProxyEnv,
};

#[test]
fn patterns_match_by_scheme_and_host() {
    assert!(url_matches_pattern("https://example.com/a", "all://"));
    assert!(url_matches_pattern("https://example.com/a", "https://"));
    assert!(!url_matches_pattern("http://example.com/a", "https://"));
    assert!(url_matches_pattern("http://example.com:8080/", "all://example.com"));
    assert!(url_matches_pattern("http://api.example.com/", "all://*.example.com"));
    assert!(!url_matches_pattern("http://example.com/", "all://*.example.com"));
    assert!(url_matches_pattern("http://example.com/", "all://*example.com"));
    assert!(!url_matches_pattern("http://other.com/", "http://example.com"));
}

#[test]
fn priorities_rank_specific_patterns() {
    assert_eq!(compute_pattern_priority("https://example.com"), 4);
    assert_eq!(compute_pattern_priority("all://example.com"), 3);
    assert_eq!(compute_pattern_priority("https://"), 2);
    assert_eq!(compute_pattern_priority("all://"), 1);
    assert_eq!(compute_pattern_priority("nonsense"), 0);
}

#[test]
fn best_mount_is_selected() {
    let mounts = vec![
        ("all://".to_string(), 1),
        ("https://example.com".to_string(), 2),
        ("https://".to_string(), 3),
    ];
    assert_eq!(*select_transport(&mounts, &0, "https://example.com/x"), 2);
    assert_eq!(*select_transport(&mounts, &0, "https://other.com/x"), 3);
    assert_eq!(*select_transport(&mounts, &0, "ftp://other.com/x"), 1);
    let none: Vec<(String, i32)> = Vec::new();
    assert_eq!(*select_transport(&none, &7, "https://example.com/"), 7);
}

#[test]
fn bare_scheme_mount_keys_are_refused() {
    let m = vec![("http".to_string(), 1)];
    assert_eq!(
        parse_sync_mounts(m).unwrap_err(),
        HttpError::ValueError(
            "Proxy keys should use proper URL-like patterns (e.g., 'http://', 'https://', 'all://'), not 'http'".to_string()
        )
    );
    assert!(parse_sync_mounts(vec![("http://".to_string(), 1)]).is_ok());
}

#[test]
fn no_proxy_entries() {
    assert!(is_no_proxy("http://example.com/", "*"));
    assert!(is_no_proxy("http://a.example.com/", "localhost, .example.com"));
    assert!(is_no_proxy("http://example.com/", "example.com"));
    assert!(!is_no_proxy("http://badexample.com/", "example.com"));
    assert!(!is_no_proxy("http://example.com/", ""));
}

#[test]
fn env_proxy_for_a_url() {
    let env = ProxyEnv {
        http_proxy: Some("proxy:3128".to_string()),
        https_proxy: None,
        all_proxy: Some("socks5://all:1080".to_string()),
        no_proxy: Some("internal.net".to_string()),
    };
    assert_eq!(get_env_proxy_url("http://example.com/", &env), Some("http://proxy:3128".to_string()));
    assert_eq!(get_env_proxy_url("https://example.com/", &env), Some("socks5://all:1080".to_string()));
    assert_eq!(get_env_proxy_url("http://a.internal.net/", &env), None);
}

#[test]
fn pattern_ports_must_match() {
    assert!(!url_matches_pattern("http://example.com:9090/", "all://example.com:8080"));
    assert!(url_matches_pattern("http://example.com:8080/", "all://example.com:8080"));
    assert!(!url_matches_pattern("http://example.com/", "all://example.com:8080"));
    assert!(url_matches_pattern("http://example.com:9090/", "all://example.com"));
    assert!(url_matches_pattern("https://api.example.com:8443/x", "https://*.example.com:8443"));
}
