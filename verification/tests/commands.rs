use browser_network::{
    domain_filter_script, get_frame_tree, install_domain_filter, install_domain_filter_fetch,
    install_domain_filter_script, must_leave, sanitize_existing_pages, set_content,
    set_extra_headers, set_offline, Command, DomainFilter, Json, PageInfo, UrlHost,
};

fn params(command: &Command) -> String {
    command.params.as_ref().unwrap().to_text()
}

fn page(url: &str, session_id: &str) -> PageInfo {
    PageInfo { url: url.to_string(), session_id: session_id.to_string() }
}

#[test]
fn extra_headers() {
    let headers = vec![
        ("X-B".to_string(), "2".to_string()),
        ("X-A".to_string(), "1".to_string()),
    ];
    let command = set_extra_headers("s1", &headers);
    assert_eq!(command.method, "Network.setExtraHTTPHeaders");
    assert_eq!(command.session_id, "s1");
    assert_eq!(params(&command), "{\"headers\":{\"X-A\":\"1\",\"X-B\":\"2\"}}");
    assert_eq!(params(&set_extra_headers("s1", &[])), "{\"headers\":{}}");
}

#[test]
fn offline() {
    let command = set_offline("s1", true);
    assert_eq!(command.method, "Network.emulateNetworkConditions");
    assert_eq!(
        params(&command),
        "{\"downloadThroughput\":-1,\"latency\":0,\"offline\":true,\"uploadThroughput\":-1}"
    );
    let back = set_offline("s1", false);
    assert_eq!(back.params.unwrap().get("offline").unwrap().as_bool(), Some(false));
}

#[test]
fn content() {
    let ask = get_frame_tree("s1");
    assert_eq!(ask.method, "Page.getFrameTree");
    assert!(ask.params.is_none());
    assert_eq!(ask.session_id, "s1");

    let wrap = |name: &str, inner: Json| Json::Object(vec![(name.to_string(), inner)]);
    let tree = wrap("frameTree", wrap("frame", wrap("id", Json::from_text("F1"))));
    let command = set_content("s1", "<p>hi</p>", &tree).unwrap();
    assert_eq!(command.method, "Page.setDocumentContent");
    assert_eq!(params(&command), "{\"frameId\":\"F1\",\"html\":\"<p>hi</p>\"}");

    for tree in [
        Json::Null,
        wrap("frameTree", Json::Null),
        wrap("frameTree", wrap("frame", wrap("id", Json::from_integer(1)))),
    ] {
        assert_eq!(
            set_content("s1", "x", &tree).unwrap_err(),
            "Could not determine frame ID"
        );
    }
}

#[test]
fn pages_are_sanitized() {
    let filter = DomainFilter::with_split("", Some("myapp.com"), None);
    let pages = vec![
        page("", "s0"),
        page("about:blank", "s1"),
        page("https://evil.com/", "s2"),
        page("https://myapp.com/", "s3"),
        page("not a url", "s4"),
        page("data:text/plain,x", "s5"),
        page("http://other.org", "s6"),
    ];
    let commands = sanitize_existing_pages(&pages, &filter);
    let sessions: Vec<&str> = commands.iter().map(|c| c.session_id.as_str()).collect();
    assert_eq!(sessions, vec!["s2", "s6"]);
    for command in &commands {
        assert_eq!(command.method, "Page.navigate");
        assert_eq!(params(command), "{\"url\":\"about:blank\"}");
    }
    assert!(sanitize_existing_pages(&pages, &DomainFilter::new("")).is_empty());
}

#[test]
fn page_leaves_as_its_url_is_refused() {
    let filter = DomainFilter::with_split("", Some("myapp.com"), None);
    let evil = UrlHost::Host("evil.com".to_string());
    assert!(must_leave(&filter, "https://evil.com", &evil));
    assert!(filter.check_navigation_host("https://evil.com", &evil).is_err());
    assert!(!must_leave(&filter, "", &evil));
    assert!(!must_leave(&filter, "about:blank", &evil));
    assert!(!must_leave(&filter, "x", &UrlHost::Invalid));
    assert!(!must_leave(&filter, "x:", &UrlHost::Missing));
    assert!(!must_leave(&filter, "https://myapp.com", &UrlHost::Host("myapp.com".to_string())));
}

#[test]
fn script_holds_the_resource_domains() {
    let filter = DomainFilter::with_split("legacy.com", None, Some("a.com, *.b.com"));
    let command = install_domain_filter_script("s1", &filter).unwrap();
    assert_eq!(command.method, "Page.addScriptToEvaluateOnNewDocument");
    let params = command.params.unwrap();
    let script = params.get("source").unwrap().as_str().unwrap();
    assert_eq!(script, domain_filter_script("[\"a.com\",\"*.b.com\"]"));
    assert!(script.starts_with("(() => {\n            const _allowed = [\"a.com\",\"*.b.com\"];\n"));
    assert!(script.ends_with("        })()"));
    assert!(script.contains("if (hostname === suffix || hostname.endsWith('.' + suffix)) return true;"));
    assert!(!script.contains("{{"));
}

#[test]
fn script_escapes_its_domains() {
    let filter = DomainFilter::new("a\"b\\c");
    let params = install_domain_filter_script("s1", &filter).unwrap().params.unwrap();
    let script = params.get("source").unwrap().as_str().unwrap();
    assert_eq!(script, domain_filter_script("[\"a\\\"b\\\\c\"]"));
}

#[test]
fn script_escapes_control_characters() {
    let mut filter = DomainFilter::new("");
    filter.resource_domains = vec![
        "\u{8}\t\n\u{c}\r".to_string(),
        "\0\u{1}\u{b}\u{1a}\u{1f}".to_string(),
        " /'\u{7f}\u{80}\u{e9}\u{2028}\u{1f600}".to_string(),
        "".to_string(),
    ];
    let params = install_domain_filter_script("s1", &filter).unwrap().params.unwrap();
    let script = params.get("source").unwrap().as_str().unwrap();
    let first = "\"\\b\\t\\n\\f\\r\"";
    let second = "\"\\u0000\\u0001\\u000b\\u001a\\u001f\"";
    let third = "\" /'\u{7f}\u{80}\u{e9}\u{2028}\u{1f600}\"";
    let list = format!("[{first},{second},{third},\"\"]");
    assert_eq!(script, domain_filter_script(&list));
}

#[test]
fn script_is_left_out_without_resource_domains() {
    let filter = DomainFilter::with_split("", Some("a.com"), None);
    assert!(install_domain_filter_script("s1", &filter).is_none());
}

#[test]
fn fetch_interception() {
    let command = install_domain_filter_fetch("s1", false);
    assert_eq!(command.method, "Fetch.enable");
    assert_eq!(params(&command), "{\"patterns\":[{\"urlPattern\":\"*\"}]}");
    assert_eq!(
        params(&install_domain_filter_fetch("s1", true)),
        "{\"handleAuthRequests\":true,\"patterns\":[{\"urlPattern\":\"*\"}]}"
    );
}

#[test]
fn both_layers_in_order() {
    let methods = |filter: &DomainFilter| -> Vec<String> {
        install_domain_filter("s1", filter, true).into_iter().map(|c| c.method).collect()
    };
    assert_eq!(
        methods(&DomainFilter::new("a.com")),
        vec!["Page.addScriptToEvaluateOnNewDocument", "Fetch.enable"]
    );
    assert_eq!(
        methods(&DomainFilter::with_split("", Some("a.com"), None)),
        vec!["Fetch.enable"]
    );
}
