use browser_network::{glob_match_domain, parse_domain_list, DomainFilter, UrlHost};

#[test]
fn test_domain_filter_exact() {
    let filter = DomainFilter::new("example.com");
    assert!(filter.is_allowed("example.com"));
    assert!(!filter.is_allowed("other.com"));
}

#[test]
fn test_domain_filter_wildcard() {
    let filter = DomainFilter::new("*.example.com");
    assert!(filter.is_allowed("example.com"));
    assert!(filter.is_allowed("api.example.com"));
    assert!(filter.is_allowed("sub.api.example.com"));
    assert!(!filter.is_allowed("other.com"));
}

#[test]
fn test_domain_filter_empty() {
    let filter = DomainFilter::new("");
    assert!(filter.is_allowed("anything.com"));
}

#[test]
fn test_domain_filter_multiple() {
    let filter = DomainFilter::new("example.com, *.api.io");
    assert!(filter.is_allowed("example.com"));
    assert!(filter.is_allowed("api.io"));
    assert!(filter.is_allowed("v1.api.io"));
    assert!(!filter.is_allowed("other.com"));
}

#[test]
fn test_parse_domain_list() {
    let domains = parse_domain_list("A.com, B.com , *.C.com");
    assert_eq!(domains, vec!["a.com", "b.com", "*.c.com"]);
}

#[test]
fn test_split_filter_navigation_only() {
    let filter = DomainFilter::with_split("", Some("myapp.com"), None);
    // Navigation restricted to myapp.com
    assert!(filter.is_navigation_allowed("myapp.com"));
    assert!(!filter.is_navigation_allowed("evil.com"));
    // Resources unrestricted (no resource_domains, no allowed_domains)
    assert!(filter.is_resource_allowed("anything.com"));
    assert!(filter.is_resource_allowed("cdn.example.com"));
}

#[test]
fn test_split_filter_resource_only() {
    let filter = DomainFilter::with_split("", None, Some("cdn.example.com"));
    // Navigation unrestricted (no navigation_domains, no allowed_domains)
    assert!(filter.is_navigation_allowed("anywhere.com"));
    // Resources restricted to cdn.example.com
    assert!(filter.is_resource_allowed("cdn.example.com"));
    assert!(!filter.is_resource_allowed("other.com"));
}

#[test]
fn test_split_filter_both() {
    let filter = DomainFilter::with_split(
        "",
        Some("myapp.com, *.myapp.com"),
        Some("*.cdn.net, *.api.io"),
    );
    // Navigation: only myapp.com
    assert!(filter.is_navigation_allowed("myapp.com"));
    assert!(filter.is_navigation_allowed("sub.myapp.com"));
    assert!(!filter.is_navigation_allowed("evil.com"));
    // Resources: only cdn.net and api.io
    assert!(filter.is_resource_allowed("img.cdn.net"));
    assert!(filter.is_resource_allowed("v1.api.io"));
    assert!(!filter.is_resource_allowed("evil.com"));
}

#[test]
fn test_split_filter_fallback_to_allowed_domains() {
    // When split fields are empty, falls back to allowed_domains
    let filter = DomainFilter::with_split("example.com, *.example.com", None, None);
    assert!(filter.is_navigation_allowed("example.com"));
    assert!(!filter.is_navigation_allowed("other.com"));
    assert!(filter.is_resource_allowed("sub.example.com"));
    assert!(!filter.is_resource_allowed("other.com"));
}

#[test]
fn test_split_filter_navigation_overrides_allowed() {
    // navigation_domains takes priority over allowed_domains for navigation
    let filter = DomainFilter::with_split("legacy.com", Some("myapp.com"), None);
    // Navigation uses navigation_domains, not allowed_domains
    assert!(filter.is_navigation_allowed("myapp.com"));
    assert!(!filter.is_navigation_allowed("legacy.com"));
    // Resources fall back to allowed_domains
    assert!(filter.is_resource_allowed("legacy.com"));
    assert!(!filter.is_resource_allowed("other.com"));
}

#[test]
fn test_split_filter_check_navigation_url() {
    let filter = DomainFilter::with_split("", Some("myapp.com"), None);
    assert!(filter.check_navigation_url("https://myapp.com/page").is_ok());
    assert!(filter.check_navigation_url("https://evil.com/page").is_err());
    // Resources still unrestricted
    assert!(filter.is_resource_allowed("evil.com"));
}

#[test]
fn test_split_filter_is_active() {
    assert!(!DomainFilter::with_split("", None, None).is_active());
    assert!(DomainFilter::with_split("example.com", None, None).is_active());
    assert!(DomainFilter::with_split("", Some("example.com"), None).is_active());
    assert!(DomainFilter::with_split("", None, Some("example.com")).is_active());
}

// -- glob_match_domain: mid-segment wildcards --

#[test]
fn test_glob_match_exact() {
    assert!(glob_match_domain("example.com", "example.com"));
    assert!(!glob_match_domain("example.com", "other.com"));
}

#[test]
fn test_glob_match_leading_wildcard() {
    assert!(glob_match_domain("*.example.com", "example.com"));
    assert!(glob_match_domain("*.example.com", "sub.example.com"));
    assert!(glob_match_domain("*.example.com", "deep.sub.example.com"));
    assert!(!glob_match_domain("*.example.com", "other.com"));
}

#[test]
fn test_glob_match_mid_segment_wildcard() {
    assert!(glob_match_domain(
        "leonardo-platform-*.vercel.app",
        "leonardo-platform-abc.vercel.app"
    ));
    assert!(glob_match_domain(
        "leonardo-platform-*.vercel.app",
        "leonardo-platform-git-feat-xyz-leonardo-ai.vercel.app"
    ));
    assert!(!glob_match_domain(
        "leonardo-platform-*.vercel.app",
        "other-platform-abc.vercel.app"
    ));
    assert!(!glob_match_domain(
        "leonardo-platform-*.vercel.app",
        "leonardo-platform.vercel.app" // missing the dash after platform
    ));
}

// -- patterns at their edges --

#[test]
fn glob_literal_pattern_is_exact() {
    assert!(glob_match_domain("", ""));
    assert!(!glob_match_domain("", "a"));
    assert!(!glob_match_domain("a", ""));
    assert!(!glob_match_domain("example.com", "example.com."));
    assert!(!glob_match_domain("example.com", "xexample.com"));
}

#[test]
fn glob_star_alone_matches_everything() {
    for pattern in ["*", "**", "***"] {
        assert!(glob_match_domain(pattern, ""));
        assert!(glob_match_domain(pattern, "anything.at.all"));
    }
}

#[test]
fn glob_fragments_do_not_overlap() {
    assert!(!glob_match_domain("ab*ba", "aba"));
    assert!(glob_match_domain("ab*ba", "abba"));
    assert!(!glob_match_domain("a*a", "a"));
    assert!(glob_match_domain("a*a", "aa"));
}

#[test]
fn glob_middle_fragments_stand_in_order() {
    assert!(glob_match_domain("a*b*c*d", "a-b-c-d"));
    assert!(glob_match_domain("a*b*c*d", "abcd"));
    assert!(!glob_match_domain("a*b*c*d", "a-c-b-d"));
    assert!(glob_match_domain("a*bc*bd", "abcbcbd"));
    assert!(!glob_match_domain("*ab*ab*", "aab"));
    assert!(glob_match_domain("*ab*ab*", "xabyabz"));
}

#[test]
fn glob_wildcard_label_needs_the_dot() {
    assert!(!glob_match_domain("*.example.com", "notexample.com"));
    assert!(glob_match_domain("*example.com", "notexample.com"));
    assert!(glob_match_domain("*.", ""));
    assert!(glob_match_domain("*.", "x."));
    assert!(!glob_match_domain("*.", "x"));
}

#[test]
fn glob_wildcard_anywhere_behind_a_wildcard_label() {
    assert!(glob_match_domain("*.app-*.example.com", "app-1.example.com"));
    assert!(glob_match_domain("*.app-*.example.com", "eu.app-1.example.com"));
    assert!(!glob_match_domain("*.app-*.example.com", "eu.web-1.example.com"));
}

#[test]
fn glob_works_on_characters() {
    assert!(glob_match_domain("m\u{fc}*.de", "m\u{fc}nchen.de"));
    assert!(!glob_match_domain("m\u{fc}*.de", "m\u{f6}lln.de"));
    assert!(glob_match_domain("*\u{1f600}*", "a\u{1f600}b"));
}

#[test]
fn glob_filled_pattern_matches() {
    for gap in ["", "x", "a.b.c", "*"] {
        let hostname = format!("pre-{}-mid-{}.end", gap, gap);
        assert!(glob_match_domain("pre-*-mid-*.end", &hostname));
    }
}

// -- lists --

#[test]
fn list_leaves_out_blank_entries() {
    assert!(parse_domain_list("").is_empty());
    assert!(parse_domain_list(" , ,\t,\n").is_empty());
    assert_eq!(parse_domain_list(",a.com,, b.com,"), vec!["a.com", "b.com"]);
}

#[test]
fn list_trims_unicode_white_space() {
    assert_eq!(
        parse_domain_list("\u{a0}a.com\u{3000},\u{2003}b.com\u{85}"),
        vec!["a.com", "b.com"]
    );
    assert_eq!(parse_domain_list("\u{200b}a.com"), vec!["\u{200b}a.com"]);
}

#[test]
fn list_trims_exactly_the_white_space_characters() {
    for c in '\0'..=char::MAX {
        let white = matches!(
            c,
            '\u{9}'..='\u{d}' | '\u{20}' | '\u{85}' | '\u{a0}' | '\u{1680}'
                | '\u{2000}'..='\u{200a}' | '\u{2028}' | '\u{2029}' | '\u{202f}'
                | '\u{205f}' | '\u{3000}'
        );
        if c == ',' {
            continue;
        }
        let domains = parse_domain_list(&format!("{}x{}", c, c));
        assert_eq!(domains.len(), 1);
        assert_eq!(domains[0] == "x", white);
    }
}

#[test]
fn list_lowers_ascii_letters_alone_among_ascii() {
    for c in '\0'..='\u{7f}' {
        if c == ',' {
            continue;
        }
        let expected = if ('A'..='Z').contains(&c) { ((c as u8) + 32) as char } else { c };
        assert_eq!(parse_domain_list(&format!("x{}x", c)), vec![format!("x{}x", expected)]);
    }
}

#[test]
fn list_lowers_unicode_letters() {
    assert_eq!(parse_domain_list("M\u{dc}NCHEN.DE"), vec!["m\u{fc}nchen.de"]);
}

#[test]
fn list_written_out_reads_as_itself() {
    let domains = parse_domain_list(" A.com,, *.B.com , c.COM ");
    assert_eq!(domains, vec!["a.com", "*.b.com", "c.com"]);
    assert_eq!(parse_domain_list(&domains.join(",")), domains);
}

#[test]
fn list_with_other_scripts_keeps_ascii_entries_normal() {
    let domains = parse_domain_list("\u{a0}App.COM\u{2003}, \u{c9}.com ,B.org");
    assert_eq!(domains, vec!["app.com", "\u{e9}.com", "b.org"]);
    assert_eq!(parse_domain_list(&domains.join(",")), domains);
}

#[test]
fn lists_in_a_row_name_what_both_name() {
    for (a, b) in [
        ("a.com, B.com", "a.com,c.com"),
        ("", "a.com"),
        ("a.com", " "),
        ("a.com,", ",\u{c9}.com"),
        ("", ""),
    ] {
        let mut both = parse_domain_list(a);
        both.extend(parse_domain_list(b));
        assert_eq!(parse_domain_list(&format!("{a},{b}")), both);
    }
    assert_eq!(
        parse_domain_list("a.com, B.com,a.com,c.com"),
        vec!["a.com", "b.com", "a.com", "c.com"]
    );
}

#[test]
fn list_without_comma_names_one_domain_or_none() {
    assert_eq!(parse_domain_list("\t A.com B \n"), vec!["a.com b"]);
    assert_eq!(parse_domain_list("\u{3000}\u{c9}.\u{130}\u{3a3} "), vec!["\u{e9}.i\u{307}\u{3c2}"]);
    assert_eq!(parse_domain_list(" \u{307} "), vec!["\u{307}"]);
    assert!(parse_domain_list(" \t ").is_empty());
    assert!(parse_domain_list("").is_empty());
}

#[test]
fn hostname_case_does_not_matter() {
    let filter = DomainFilter::new("Example.COM");
    assert!(filter.is_allowed("EXAMPLE.com"));
    assert!(filter.is_allowed("example.com"));
    assert!(DomainFilter::new("m\u{fc}nchen.de").is_allowed("M\u{dc}NCHEN.de"));
}

#[test]
fn mixed_case_pattern_matches_no_hostname() {
    let domains = vec!["Example.com".to_string()];
    assert!(!DomainFilter::matches_domain_list(&domains, "Example.com"));
    assert!(DomainFilter::matches_domain_list(&[], "Example.com"));
}

#[test]
fn more_domains_allow_more() {
    assert!(DomainFilter::new("a.com").is_allowed("a.com"));
    assert!(DomainFilter::new("a.com,b.com").is_allowed("a.com"));
    assert!(DomainFilter::new("b.com,a.com").is_allowed("a.com"));
}

// -- URLs --

#[test]
fn host_of_a_url() {
    assert!(matches!(UrlHost::of("https://Example.com:8080/x?y#z"), UrlHost::Host(h) if h == "example.com"));
    assert!(matches!(UrlHost::of("data:text/plain,Stuff"), UrlHost::Missing));
    assert!(matches!(UrlHost::of("not a url"), UrlHost::Invalid));
    assert!(matches!(UrlHost::of("http://[::1]/"), UrlHost::Host(h) if h == "[::1]"));
}

#[test]
fn navigation_check_messages() {
    let filter = DomainFilter::with_split("", Some("myapp.com"), None);
    assert_eq!(
        filter.check_navigation_url("nonsense"),
        Err("Invalid URL: nonsense".to_string())
    );
    assert_eq!(
        filter.check_navigation_url("data:text/plain,x"),
        Err("No hostname in URL: data:text/plain,x".to_string())
    );
    assert_eq!(
        filter.check_navigation_url("https://evil.com/page"),
        Err("Domain 'evil.com' is not in the allowed navigation domains list".to_string())
    );
    assert_eq!(filter.check_navigation_url("https://MYAPP.com/"), Ok(()));
}

#[test]
fn unified_check_messages() {
    let filter = DomainFilter::new("*.example.com");
    assert_eq!(
        filter.check_url("nonsense"),
        Err("Invalid URL: nonsense".to_string())
    );
    assert_eq!(
        filter.check_url("mailto:a@b.c"),
        Err("No hostname in URL: mailto:a@b.c".to_string())
    );
    assert_eq!(
        filter.check_url("https://evil.com/page"),
        Err("Domain 'evil.com' is not in the allowed domains list".to_string())
    );
    assert_eq!(filter.check_url("https://a.example.com/"), Ok(()));
}

#[test]
fn checks_without_a_list_pass_anything() {
    let filter = DomainFilter::new("");
    assert_eq!(filter.check_url("nonsense"), Ok(()));
    assert_eq!(filter.check_navigation_url("nonsense"), Ok(()));
}

#[test]
fn unified_check_ignores_the_navigation_list() {
    let filter = DomainFilter::with_split("a.com", Some("b.com"), None);
    assert!(filter.check_url("https://a.com").is_ok());
    assert!(filter.check_url("https://b.com").is_err());
    assert!(filter.check_navigation_url("https://b.com").is_ok());
    assert!(filter.check_navigation_url("https://a.com").is_err());
}

#[test]
fn checks_given_the_host() {
    let filter = DomainFilter::with_split("a.com", Some("b.com"), None);
    assert_eq!(
        filter.check_navigation_host("u", &UrlHost::Invalid),
        Err("Invalid URL: u".to_string())
    );
    assert_eq!(
        filter.check_navigation_host("u", &UrlHost::Missing),
        Err("No hostname in URL: u".to_string())
    );
    assert_eq!(filter.check_navigation_host("u", &UrlHost::Host("b.com".to_string())), Ok(()));
    assert_eq!(
        filter.check_host("u", &UrlHost::Host("b.com".to_string())),
        Err("Domain 'b.com' is not in the allowed domains list".to_string())
    );
}
