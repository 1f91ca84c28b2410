use browser_network::{
    check_localhost_handshake, handshake_url, is_localhost, HandshakeCache, HandshakeReply,
    HandshakeStep, Json,
};

fn body(app: &str) -> HandshakeReply {
    HandshakeReply::Body(Json::Object(vec![("app".to_string(), Json::from_text(app))]))
}

#[test]
fn test_is_localhost() {
    assert!(is_localhost("localhost"));
    assert!(is_localhost("127.0.0.1"));
    assert!(is_localhost("0.0.0.0"));
    assert!(is_localhost("[::1]"));
    assert!(is_localhost("::1"));
}

#[test]
fn test_is_localhost_rejects_remote() {
    assert!(!is_localhost("example.com"));
    assert!(!is_localhost("leonardo.ai"));
    assert!(!is_localhost("192.168.1.1"));
}

#[test]
fn localhost_is_told_exactly() {
    assert!(!is_localhost("LOCALHOST"));
    assert!(!is_localhost("localhost."));
    assert!(!is_localhost(""));
}

#[test]
fn handshake_addresses() {
    assert_eq!(
        handshake_url("localhost", 3000),
        "http://localhost:3000/api/__agent-browser-handshake"
    );
    assert_eq!(
        handshake_url("[::1]", 65535),
        "http://[::1]:65535/api/__agent-browser-handshake"
    );
    assert_eq!(handshake_url("h", 0), "http://h:0/api/__agent-browser-handshake");
}

#[test]
fn handshake_verdicts() {
    let blocked =
        Err("[agent-browser] localhost:3000 did not pass application handshake, navigation blocked"
            .to_string());
    let check = |reply: HandshakeReply| check_localhost_handshake("localhost", 3000, &reply);
    assert_eq!(check(body("leonardo-platform")), Ok(()));
    assert_eq!(check(body("leonardo")), blocked);
    assert_eq!(check(HandshakeReply::Body(Json::Null)), blocked);
    assert_eq!(
        check(HandshakeReply::Body(Json::Object(vec![("app".to_string(), Json::Bool(true))]))),
        blocked
    );
    assert_eq!(check(HandshakeReply::NotJson), blocked);
    assert_eq!(
        check(HandshakeReply::Unreachable),
        Err("[agent-browser] Could not reach localhost:3000 \u{2014} is the dev server running?"
            .to_string())
    );
    assert_eq!(
        check(HandshakeReply::ClientError("no tls".to_string())),
        Err("[agent-browser] HTTP client error: no tls".to_string())
    );
}

#[test]
fn handshake_is_remembered() {
    let mut cache = HandshakeCache::new();
    assert!(matches!(
        cache.check_cached_handshake("localhost", 3000),
        HandshakeStep::Ask(url) if url == "http://localhost:3000/api/__agent-browser-handshake"
    ));
    assert_eq!(
        cache.complete_handshake("localhost", 3000, &body("leonardo-platform")),
        Ok(())
    );
    assert!(matches!(
        cache.check_cached_handshake("localhost", 3000),
        HandshakeStep::Done(Ok(()))
    ));
}

#[test]
fn failed_handshake_is_remembered_as_blocked() {
    let mut cache = HandshakeCache::new();
    let first = cache.complete_handshake("localhost", 8080, &HandshakeReply::Unreachable);
    assert!(first.unwrap_err().contains("Could not reach localhost:8080"));
    assert!(matches!(
        cache.check_cached_handshake("localhost", 8080),
        HandshakeStep::Done(Err(message)) if message
            == "[agent-browser] localhost:8080 did not pass application handshake, navigation blocked"
    ));
}

#[test]
fn handshakes_are_independent() {
    let mut cache = HandshakeCache::new();
    cache.complete_handshake("localhost", 3000, &body("leonardo-platform")).unwrap();
    for (host, port) in [("localhost", 300), ("localhost", 3001), ("127.0.0.1", 3000), ("localhost:3", 0)] {
        assert!(matches!(
            cache.check_cached_handshake(host, port),
            HandshakeStep::Ask(_)
        ));
    }
}
