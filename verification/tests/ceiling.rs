use browser_network::{
    ceiling_warnings, filter_by_ceiling, navigation_domain_ceiling, parse_domain_list,
    DomainFilter,
};

#[test]
fn test_ceiling_accepts_matching_domain() {
    let result = filter_by_ceiling(vec!["leonardo.ai".to_string()]);
    assert_eq!(result, vec!["leonardo.ai"]);
}

#[test]
fn test_ceiling_rejects_unknown_domain() {
    let result = filter_by_ceiling(vec!["evil.com".to_string()]);
    assert!(result.is_empty());
}

#[test]
fn test_ceiling_wildcard_subdomain() {
    let result = filter_by_ceiling(vec!["app.leonardo.ai".to_string()]);
    assert_eq!(result, vec!["app.leonardo.ai"]);
}

#[test]
fn test_ceiling_midlabel_wildcard() {
    let result = filter_by_ceiling(vec![
        "leonardo-platform-git-feat-xyz.vercel.app".to_string(),
    ]);
    assert_eq!(
        result,
        vec!["leonardo-platform-git-feat-xyz.vercel.app"]
    );
}

#[test]
fn test_ceiling_empty_config_stays_empty() {
    let result = filter_by_ceiling(vec![]);
    assert!(result.is_empty());
}

#[test]
fn test_ceiling_config_wildcard_covered() {
    // Config entry `*.leonardo.ai` is covered by ceiling `*.leonardo.ai`
    let result = filter_by_ceiling(vec!["*.leonardo.ai".to_string()]);
    assert_eq!(result, vec!["*.leonardo.ai"]);
}

#[test]
fn test_ceiling_localhost_accepted() {
    let result = filter_by_ceiling(vec!["localhost".to_string()]);
    assert_eq!(result, vec!["localhost"]);
}

#[test]
fn test_ceiling_mixed_accept_reject() {
    let result = filter_by_ceiling(vec![
        "leonardo.ai".to_string(),
        "evil.com".to_string(),
        "app.leonardo.ai".to_string(),
    ]);
    assert_eq!(result, vec!["leonardo.ai", "app.leonardo.ai"]);
}

#[test]
fn test_ceiling_does_not_affect_resource_domains() {
    // Ceiling only applies via filter_by_ceiling on navigation domains.
    // Resource domains are never passed through the ceiling filter,
    // so any domain works in resource_domains.
    let filter = DomainFilter::with_split("", None, Some("cdn.evil.com"));
    assert!(filter.is_resource_allowed("cdn.evil.com"));
}

#[test]
fn ceiling_patterns() {
    assert_eq!(
        navigation_domain_ceiling(),
        vec!["leonardo.ai", "*.leonardo.ai", "leonardo-platform-*.vercel.app", "localhost"]
    );
}

#[test]
fn ceiling_rejects_wildcards_that_reach_further() {
    for entry in [
        "*",
        "*.ai",
        "*leonardo.ai",
        "leonardo*",
        "leonardo.*",
        "*.vercel.app",
        "leonardo-platform-*",
        "*.leonardo-platform-x.vercel.app",
        "local*",
        "*.localhost",
    ] {
        assert!(filter_by_ceiling(vec![entry.to_string()]).is_empty());
    }
}

#[test]
fn ceiling_keeps_an_entry_in_any_case() {
    let result = filter_by_ceiling(vec!["App.Leonardo.AI".to_string()]);
    assert_eq!(result, vec!["App.Leonardo.AI"]);
}

#[test]
fn ceiling_bounds_what_a_kept_entry_covers() {
    let ceiling = navigation_domain_ceiling();
    let kept = filter_by_ceiling(parse_domain_list(
        "a*.leonardo.ai, leonardo-platform-*-x.vercel.app, *.Leonardo.ai, evil.com",
    ));
    assert_eq!(kept, vec!["a*.leonardo.ai", "leonardo-platform-*-x.vercel.app", "*.leonardo.ai"]);
    for hostname in [
        "a.leonardo.ai",
        "a.evil.leonardo.ai",
        "leonardo-platform-.x-x.vercel.app",
        "leonardo.ai",
        "evil.com",
        "leonardo.ai.evil.com",
    ] {
        if DomainFilter::matches_domain_list(&kept, hostname) {
            assert!(DomainFilter::matches_domain_list(&ceiling, hostname));
        }
    }
    assert!(DomainFilter::matches_domain_list(&kept, "LEONARDO.ai"));
    assert!(!DomainFilter::matches_domain_list(&kept, "evil.com"));
}

#[test]
fn ceiling_bounds_entries_in_any_case_and_script() {
    let ceiling = navigation_domain_ceiling();
    let kept = filter_by_ceiling(vec![
        "App.Leonardo.AI".to_string(),
        "\u{e9}.leonardo.ai".to_string(),
        "\u{130}.leonardo.ai".to_string(),
        "x.leonardo.ai".to_string(),
    ]);
    assert_eq!(kept.len(), 4);
    for hostname in ["app.leonardo.ai", "App.Leonardo.AI", "e.leonardo.ai", "X.leonardo.ai"] {
        let allowed = DomainFilter::matches_domain_list(&kept, hostname);
        assert_eq!(allowed, hostname == "X.leonardo.ai");
        assert!(DomainFilter::matches_domain_list(&ceiling, hostname));
    }
}

#[test]
fn ceiling_filter_twice_is_once() {
    let once = filter_by_ceiling(vec!["evil.com".to_string(), "x.leonardo.ai".to_string()]);
    assert_eq!(filter_by_ceiling(once.clone()), once);
}

#[test]
fn ceiling_warns_about_what_it_drops() {
    let domains = vec![
        "evil.com".to_string(),
        "localhost".to_string(),
        "*".to_string(),
    ];
    assert_eq!(
        ceiling_warnings(&domains),
        vec![
            "[agent-browser] domain \"evil.com\" not in approved ceiling, ignored",
            "[agent-browser] domain \"*\" not in approved ceiling, ignored",
        ]
    );
}
