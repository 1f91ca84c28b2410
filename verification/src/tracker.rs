//! Console messages and page errors, remembered up to a limit.

use crate::json::{
    clone_items, items_view, json_view, lemma_items_view, push_member, single, single_json, Json,
    JsonView,
};
use crate::text::{optional_str, optional_text, signed_decimal};
use vstd::prelude::*;

verus! {

#[derive(Debug, Clone)]
pub struct ConsoleEntry {
    pub level: String,
    pub text: String,
    pub args: Vec<Json>,
}

#[derive(Debug, Clone)]
pub struct ErrorEntry {
    pub text: String,
    pub url: Option<String>,
    pub line: Option<i64>,
    pub column: Option<i64>,
}

/// What a console entry holds.
pub struct ConsoleView {
    pub level: Seq<char>,
    pub text: Seq<char>,
    pub args: Seq<JsonView>,
}

/// What an error entry holds.
pub struct ErrorView {
    pub text: Seq<char>,
    pub url: Option<Seq<char>>,
    pub line: Option<i64>,
    pub column: Option<i64>,
}

impl View for ConsoleEntry {
    type V = ConsoleView;

    open spec fn view(&self) -> ConsoleView {
        ConsoleView { level: self.level@, text: self.text@, args: items_view(self.args@) }
    }
}

impl View for ErrorEntry {
    type V = ErrorView;

    open spec fn view(&self) -> ErrorView {
        ErrorView {
            text: self.text@,
            url: optional_text(self.url),
            line: self.line,
            column: self.column,
        }
    }
}

/// Keeps the latest console messages and page errors, `max_entries` of each.
pub struct EventTracker {
    pub console_entries: Vec<ConsoleEntry>,
    pub error_entries: Vec<ErrorEntry>,
    pub max_entries: usize,
}

/// What a tracker holds.
#[verifier::ext_equal]
pub struct TrackerView {
    pub console: Seq<ConsoleView>,
    pub errors: Seq<ErrorView>,
    pub max: nat,
}

impl View for EventTracker {
    type V = TrackerView;

    open spec fn view(&self) -> TrackerView {
        TrackerView {
            console: self.console_entries@.map_values(|entry: ConsoleEntry| entry@),
            errors: self.error_entries@.map_values(|entry: ErrorEntry| entry@),
            max: self.max_entries as nat,
        }
    }
}

/// A log with one more entry at its end. A log that has reached its limit gives up
/// its oldest entry for it.
pub open spec fn recorded<T>(log: Seq<T>, entry: T, max: nat) -> Seq<T> {
    if log.len() >= max {
        log.drop_first().push(entry)
    } else {
        log.push(entry)
    }
}

/// A log with a list of entries recorded one after another.
pub open spec fn recorded_all<T>(log: Seq<T>, entries: Seq<T>, max: nat) -> Seq<T>
    decreases entries.len(),
{
    if entries.len() == 0 {
        log
    } else {
        recorded(recorded_all(log, entries.drop_last(), max), entries.last(), max)
    }
}

/// A console message as JSON. The arguments are left out where there are none.
pub open spec fn message_json(entry: ConsoleView) -> JsonView {
    let named = Map::<Seq<char>, JsonView>::empty().insert(
        "type"@,
        JsonView::Str(entry.level),
    ).insert("text"@, JsonView::Str(entry.text));
    if entry.args.len() > 0 {
        JsonView::Object(named.insert("args"@, JsonView::Array(entry.args)))
    } else {
        JsonView::Object(named)
    }
}

/// An optional text as JSON: a string or null.
pub open spec fn text_or_null(text: Option<Seq<char>>) -> JsonView {
    match text {
        Some(s) => JsonView::Str(s),
        None => JsonView::Null,
    }
}

/// An optional integer as JSON: a number or null.
pub open spec fn integer_or_null(n: Option<i64>) -> JsonView {
    match n {
        Some(i) => JsonView::Number(signed_decimal(i as int)),
        None => JsonView::Null,
    }
}

/// A page error as JSON.
pub open spec fn error_json(entry: ErrorView) -> JsonView {
    JsonView::Object(
        Map::<Seq<char>, JsonView>::empty().insert("text"@, JsonView::Str(entry.text)).insert(
            "url"@,
            text_or_null(entry.url),
        ).insert("line"@, integer_or_null(entry.line)).insert(
            "column"@,
            integer_or_null(entry.column),
        ),
    )
}

/// Writes a console message as JSON.
fn message(entry: &ConsoleEntry) -> (json: Json)
    ensures
        json@ == message_json(entry@),
{
    let mut members: Vec<(String, Json)> = Vec::new();
    push_member(&mut members, "type", Json::from_text(entry.level.as_str()));
    push_member(&mut members, "text", Json::from_text(entry.text.as_str()));
    proof {
        lemma_items_view(entry.args@);
    }
    if !entry.args.is_empty() {
        push_member(&mut members, "args", Json::Array(clone_items(&entry.args)));
    }
    Json::Object(members)
}

/// Writes an optional integer as JSON.
fn integer_json(n: Option<i64>) -> (json: Json)
    ensures
        json@ == integer_or_null(n),
{
    match n {
        Some(i) => Json::from_integer(i),
        None => Json::Null,
    }
}

/// Writes a page error as JSON.
fn error(entry: &ErrorEntry) -> (json: Json)
    ensures
        json@ == error_json(entry@),
{
    let url = match &entry.url {
        Some(url) => Json::from_text(url.as_str()),
        None => Json::Null,
    };
    let mut members: Vec<(String, Json)> = Vec::new();
    push_member(&mut members, "text", Json::from_text(entry.text.as_str()));
    push_member(&mut members, "url", url);
    push_member(&mut members, "line", integer_json(entry.line));
    push_member(&mut members, "column", integer_json(entry.column));
    Json::Object(members)
}

impl EventTracker {
    /// An empty tracker that keeps the latest thousand entries of each kind.
    pub fn new() -> (tracker: EventTracker)
        ensures
            tracker@ == (TrackerView { console: Seq::empty(), errors: Seq::empty(), max: 1000 }),
    {
        let tracker = EventTracker {
            console_entries: Vec::new(),
            error_entries: Vec::new(),
            max_entries: 1000,
        };
        assert(tracker@.console =~= Seq::empty());
        assert(tracker@.errors =~= Seq::empty());
        tracker
    }

    /// Records a console message.
    pub fn add_console(&mut self, level: &str, text: &str, args: Vec<Json>)
        requires
            old(self)@.max > 0 || old(self)@.console.len() > 0,
        ensures
            final(self)@ == (TrackerView {
                console: recorded(
                    old(self)@.console,
                    ConsoleView { level: level@, text: text@, args: items_view(args@) },
                    old(self)@.max,
                ),
                errors: old(self)@.errors,
                max: old(self)@.max,
            }),
    {
        if self.console_entries.len() >= self.max_entries {
            self.console_entries.remove(0);
            assert(self@.console =~= old(self)@.console.drop_first());
        }
        let ghost before = self@.console;
        self.console_entries.push(
            ConsoleEntry { level: level.to_string(), text: text.to_string(), args },
        );
        assert(self@.console =~= before.push(
            ConsoleView { level: level@, text: text@, args: items_view(args@) },
        ));
    }

    /// Records a page error.
    pub fn add_error(
        &mut self,
        text: &str,
        url: Option<&str>,
        line: Option<i64>,
        col: Option<i64>,
    )
        requires
            old(self)@.max > 0 || old(self)@.errors.len() > 0,
        ensures
            final(self)@ == (TrackerView {
                console: old(self)@.console,
                errors: recorded(
                    old(self)@.errors,
                    ErrorView { text: text@, url: optional_str(url), line, column: col },
                    old(self)@.max,
                ),
                max: old(self)@.max,
            }),
    {
        if self.error_entries.len() >= self.max_entries {
            self.error_entries.remove(0);
            assert(self@.errors =~= old(self)@.errors.drop_first());
        }
        let ghost before = self@.errors;
        let address = match url {
            Some(s) => Some(s.to_string()),
            None => None,
        };
        self.error_entries.push(
            ErrorEntry { text: text.to_string(), url: address, line, column: col },
        );
        assert(self@.errors =~= before.push(
            ErrorView { text: text@, url: optional_str(url), line, column: col },
        ));
    }

    /// Forgets the console messages.
    pub fn clear_console(&mut self)
        ensures
            final(self)@ == (TrackerView {
                console: Seq::empty(),
                errors: old(self)@.errors,
                max: old(self)@.max,
            }),
    {
        self.console_entries.clear();
        assert(self@.console =~= Seq::empty());
    }

    /// The console messages as JSON.
    pub fn get_console_json(&self) -> (json: Json)
        ensures
            json@ == single(
                "messages"@,
                JsonView::Array(self@.console.map_values(|entry: ConsoleView| message_json(entry))),
            ),
    {
        let ghost all = self@.console.map_values(|entry: ConsoleView| message_json(entry));
        let mut messages: Vec<Json> = Vec::new();
        let mut i: usize = 0;
        assert(items_view(messages@) =~= all.take(0));
        while i < self.console_entries.len()
            invariant
                all == self@.console.map_values(|entry: ConsoleView| message_json(entry)),
                i <= self.console_entries@.len(),
                items_view(messages@) == all.take(i as int),
            decreases self.console_entries@.len() - i,
        {
            let ghost before = messages@;
            assert(self@.console[i as int] == self.console_entries@[i as int]@);
            messages.push(message(&self.console_entries[i]));
            assert(messages@.drop_last() =~= before);
            assert(all.take(i + 1) =~= all.take(i as int).push(all[i as int]));
            i = i + 1;
        }
        assert(all.take(all.len() as int) =~= all);
        single_json("messages", Json::Array(messages))
    }

    /// The page errors as JSON.
    pub fn get_errors_json(&self) -> (json: Json)
        ensures
            json@ == single(
                "errors"@,
                JsonView::Array(self@.errors.map_values(|entry: ErrorView| error_json(entry))),
            ),
    {
        let ghost all = self@.errors.map_values(|entry: ErrorView| error_json(entry));
        let mut entries: Vec<Json> = Vec::new();
        let mut i: usize = 0;
        assert(items_view(entries@) =~= all.take(0));
        while i < self.error_entries.len()
            invariant
                all == self@.errors.map_values(|entry: ErrorView| error_json(entry)),
                i <= self.error_entries@.len(),
                items_view(entries@) == all.take(i as int),
            decreases self.error_entries@.len() - i,
        {
            let ghost before = entries@;
            assert(self@.errors[i as int] == self.error_entries@[i as int]@);
            entries.push(error(&self.error_entries[i]));
            assert(entries@.drop_last() =~= before);
            assert(all.take(i + 1) =~= all.take(i as int).push(all[i as int]));
            i = i + 1;
        }
        assert(all.take(all.len() as int) =~= all);
        single_json("errors", Json::Array(entries))
    }
}

/// A log within its limit stays within it, and the entry that was recorded is its
/// last.
pub proof fn law_log_stays_within_limit<T>(log: Seq<T>, entry: T, max: nat)
    requires
        0 < max,
        log.len() <= max,
    ensures
        recorded(log, entry, max).len() <= max,
        recorded(log, entry, max).len() > 0,
        recorded(log, entry, max).last() == entry,
{
}

/// A log that was empty holds the latest entries, as many as the limit lets it, in
/// the order in which they were recorded.
pub proof fn law_log_keeps_the_latest<T>(entries: Seq<T>, max: nat)
    requires
        0 < max,
    ensures
        recorded_all(Seq::empty(), entries, max) == (if entries.len() <= max {
            entries
        } else {
            entries.skip(entries.len() - max)
        }),
    decreases entries.len(),
{
    let log = recorded_all(Seq::empty(), entries, max);
    if entries.len() > 0 {
        law_log_keeps_the_latest(entries.drop_last(), max);
        if entries.len() <= max {
            assert(log =~= entries);
        } else {
            assert(log =~= entries.skip(entries.len() - max));
        }
    } else {
        assert(log =~= entries);
    }
}

/// The arguments stand in the JSON of a message exactly where there are some.
pub proof fn law_message_has_arguments_if_any(entry: ConsoleView)
    ensures
        message_json(entry).field("type"@) == Some(JsonView::Str(entry.level)),
        message_json(entry).field("text"@) == Some(JsonView::Str(entry.text)),
        message_json(entry).field("args"@) == (if entry.args.len() > 0 {
            Some(JsonView::Array(entry.args))
        } else {
            None
        }),
{
    reveal_strlit("type");
    reveal_strlit("text");
    reveal_strlit("args");
    assert("type"@[0] != "text"@[0] || "type"@[1] != "text"@[1]);
    assert("type"@[0] != "args"@[0]);
    assert("text"@[0] != "args"@[0]);
}

/// Recording an entry puts it at the end of the log. What was there stays in its
/// order, but for the oldest entry of a log that has reached its limit.
pub proof fn law_recording_takes_one_for_one<T>(log: Seq<T>, entry: T, max: nat)
    requires
        max > 0 || log.len() > 0,
    ensures
        recorded(log, entry, max).len() > 0,
        recorded(log, entry, max).last() == entry,
        log.len() < max ==> recorded(log, entry, max).drop_last() == log,
        log.len() >= max ==> recorded(log, entry, max).drop_last() == log.skip(1),
{
    if log.len() < max {
        assert(recorded(log, entry, max).drop_last() =~= log);
    } else {
        assert(recorded(log, entry, max).drop_last() =~= log.skip(1));
    }
}

/// The JSON of a message has no members but its type, its text and its arguments.
pub proof fn law_message_has_nothing_else(entry: ConsoleView, name: Seq<char>)
    ensures
        message_json(entry).field(name) is Some ==> name == "type"@ || name == "text"@ || name
            == "args"@,
{
}

/// The JSON of an error has its text and, where they are known, the URL, line and
/// column it comes from, null standing for what is not known. It has nothing else.
pub proof fn law_error_says_where_it_comes_from(entry: ErrorView, name: Seq<char>)
    ensures
        error_json(entry).field("text"@) == Some(JsonView::Str(entry.text)),
        error_json(entry).field("url"@) == Some(
            match entry.url {
                Some(url) => JsonView::Str(url),
                None => JsonView::Null,
            },
        ),
        error_json(entry).field("line"@) == Some(
            match entry.line {
                Some(line) => JsonView::Number(signed_decimal(line as int)),
                None => JsonView::Null,
            },
        ),
        error_json(entry).field("column"@) == Some(
            match entry.column {
                Some(column) => JsonView::Number(signed_decimal(column as int)),
                None => JsonView::Null,
            },
        ),
        error_json(entry).field(name) is Some ==> name == "text"@ || name == "url"@ || name
            == "line"@ || name == "column"@,
{
    reveal_strlit("text");
    reveal_strlit("url");
    reveal_strlit("line");
    reveal_strlit("column");
    assert("text"@.len() == 4 && "url"@.len() == 3 && "line"@.len() == 4 && "column"@.len() == 6);
    assert("text"@[0] != "line"@[0]);
}

/// Entries and trackers hold what they are made of.
pub proof fn law_entries_hold_their_parts(
    message: ConsoleEntry,
    error: ErrorEntry,
    tracker: EventTracker,
)
    ensures
        message@.level == message.level@,
        message@.text == message.text@,
        message@.args.len() == message.args@.len(),
        forall|i: int|
            0 <= i < message.args@.len() ==> message@.args[i] == (#[trigger] message.args@[i])@,
        error@.text == error.text@,
        error.url is None ==> error@.url is None,
        error.url matches Some(url) ==> error@.url == Some(url@),
        error@.line == error.line,
        error@.column == error.column,
        tracker@.console.len() == tracker.console_entries@.len(),
        forall|i: int|
            0 <= i < tracker.console_entries@.len() ==> tracker@.console[i]
                == (#[trigger] tracker.console_entries@[i])@,
        tracker@.errors.len() == tracker.error_entries@.len(),
        forall|i: int|
            0 <= i < tracker.error_entries@.len() ==> tracker@.errors[i]
                == (#[trigger] tracker.error_entries@[i])@,
        tracker@.max == tracker.max_entries,
{
    lemma_items_view(message.args@);
    assert forall|i: int| 0 <= i < message.args@.len() implies message@.args[i]
        == (#[trigger] message.args@[i])@ by {
        assert(items_view(message.args@)[i] == json_view(message.args@[i]));
    }
}

} // verus!
