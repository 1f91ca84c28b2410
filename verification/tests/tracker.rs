use browser_network::{EventTracker, Json};

fn object(members: Vec<(&str, Json)>) -> Json {
    Json::Object(members.into_iter().map(|(k, v)| (k.to_string(), v)).collect())
}

#[test]
fn test_event_tracker() {
    let mut tracker = EventTracker::new();
    tracker.add_console("log", "hello", vec![]);
    tracker.add_error("oops", Some("test.js"), Some(1), Some(5));

    assert_eq!(tracker.console_entries.len(), 1);
    assert_eq!(tracker.error_entries.len(), 1);
}

#[test]
fn test_console_json_includes_args() {
    let mut tracker = EventTracker::new();
    let string = || object(vec![("type", Json::from_text("string")), ("value", Json::from_text("hello"))]);
    let number = || object(vec![("type", Json::from_text("number")), ("value", Json::from_integer(42))]);
    let raw_args = vec![string(), number()];
    tracker.add_console("log", "hello 42", raw_args);

    let result = tracker.get_console_json();
    let messages = result.get("messages").unwrap().as_array().unwrap();
    assert_eq!(messages.len(), 1);
    assert_eq!(messages[0].get("text").unwrap().as_str(), Some("hello 42"));
    let args = messages[0].get("args").unwrap().as_array().unwrap();
    assert_eq!(args.len(), 2);
    assert_eq!(args[0], string());
    assert_eq!(args[1], number());
}

#[test]
fn test_console_json_empty_args_omits_field() {
    let mut tracker = EventTracker::new();
    tracker.add_console("log", "text only", vec![]);

    let result = tracker.get_console_json();
    let messages = result.get("messages").unwrap().as_array().unwrap();
    assert!(messages[0].get("args").is_none());
}

#[test]
fn tracker_starts_empty() {
    let tracker = EventTracker::new();
    assert_eq!(tracker.max_entries, 1000);
    assert_eq!(tracker.get_console_json().to_text(), "{\"messages\":[]}");
    assert_eq!(tracker.get_errors_json().to_text(), "{\"errors\":[]}");
}

#[test]
fn tracker_keeps_the_latest() {
    let mut tracker = EventTracker::new();
    tracker.max_entries = 3;
    for i in 0..5 {
        tracker.add_console("log", &format!("m{}", i), vec![]);
        tracker.add_error(&format!("e{}", i), None, None, None);
    }
    let messages: Vec<&str> = tracker.console_entries.iter().map(|e| e.text.as_str()).collect();
    assert_eq!(messages, vec!["m2", "m3", "m4"]);
    let errors: Vec<&str> = tracker.error_entries.iter().map(|e| e.text.as_str()).collect();
    assert_eq!(errors, vec!["e2", "e3", "e4"]);
}

#[test]
fn tracker_over_its_limit_gives_up_one_entry_at_a_time() {
    let mut tracker = EventTracker::new();
    for i in 0..3 {
        tracker.add_console("log", &format!("m{}", i), vec![]);
    }
    tracker.max_entries = 1;
    tracker.add_console("log", "m3", vec![]);
    let messages: Vec<&str> = tracker.console_entries.iter().map(|e| e.text.as_str()).collect();
    assert_eq!(messages, vec!["m1", "m2", "m3"]);
}

#[test]
fn tracker_clears_the_console_alone() {
    let mut tracker = EventTracker::new();
    tracker.add_console("log", "m", vec![]);
    tracker.add_error("e", None, None, None);
    tracker.clear_console();
    assert!(tracker.console_entries.is_empty());
    assert_eq!(tracker.error_entries.len(), 1);
}

#[test]
fn tracker_entries_hold_what_was_added() {
    let mut tracker = EventTracker::new();
    tracker.add_console("warn", "careful", vec![Json::Null]);
    tracker.add_error("oops", Some("test.js"), Some(1), None);
    assert_eq!(tracker.console_entries[0].level, "warn");
    assert_eq!(tracker.console_entries[0].text, "careful");
    assert_eq!(tracker.console_entries[0].args, vec![Json::Null]);
    assert_eq!(tracker.error_entries[0].url.as_deref(), Some("test.js"));
    assert_eq!(tracker.error_entries[0].line, Some(1));
    assert_eq!(tracker.error_entries[0].column, None);
}

#[test]
fn errors_json() {
    let mut tracker = EventTracker::new();
    tracker.add_error("oops", Some("test.js"), Some(-1), Some(5));
    tracker.add_error("again", None, None, None);
    assert_eq!(
        tracker.get_errors_json().to_text(),
        "{\"errors\":[{\"column\":5,\"line\":-1,\"text\":\"oops\",\"url\":\"test.js\"},\
         {\"column\":null,\"line\":null,\"text\":\"again\",\"url\":null}]}"
    );
}

#[test]
fn console_json() {
    let mut tracker = EventTracker::new();
    tracker.add_console("log", "a", vec![]);
    tracker.add_console("error", "b", vec![Json::Bool(true)]);
    assert_eq!(
        tracker.get_console_json().to_text(),
        "{\"messages\":[{\"text\":\"a\",\"type\":\"log\"},\
         {\"args\":[true],\"text\":\"b\",\"type\":\"error\"}]}"
    );
}
