//! Commands of the debugging protocol: what is sent to the browser to set headers,
//! go offline, replace a document and put the domain filter in force.

use crate::compact::quoted_list;
use crate::domains::{list_allows, DomainFilter, FilterView};
use crate::interchange::strings_json;
use crate::json::{items_view, members_view, push_member, single, single_json, Json, JsonView};
use crate::text::{concat3, same_text, signed_decimal};
use crate::urls::{url_host, UrlHost};
use vstd::prelude::*;

verus! {

/// A command to a session of the browser.
#[derive(Debug)]
pub struct Command {
    pub method: String,
    pub params: Option<Json>,
    pub session_id: String,
}

/// What a command holds.
pub struct CommandView {
    pub method: Seq<char>,
    pub params: Option<JsonView>,
    pub session_id: Seq<char>,
}

impl View for Command {
    type V = CommandView;

    open spec fn view(&self) -> CommandView {
        CommandView {
            method: self.method@,
            params: match self.params {
                Some(json) => Some(json@),
                None => None,
            },
            session_id: self.session_id@,
        }
    }
}

/// What a list of commands holds.
pub open spec fn commands_view(commands: Seq<Command>) -> Seq<CommandView> {
    commands.map_values(|command: Command| command@)
}

/// A page of the browser.
#[derive(Debug)]
pub struct PageInfo {
    pub url: String,
    pub session_id: String,
}

/// A command with parameters.
pub open spec fn with_params(method: Seq<char>, params: JsonView, session_id: Seq<char>) -> CommandView {
    CommandView { method, params: Some(params), session_id }
}

/// Makes a command with parameters.
fn command(method: &str, params: Json, session_id: &str) -> (made: Command)
    ensures
        made@ == with_params(method@, params@, session_id@),
{
    Command {
        method: method.to_string(),
        params: Some(params),
        session_id: session_id.to_string(),
    }
}

/// The mapping that a list of headers gives, a later header taking the place of an
/// earlier one with its name.
pub open spec fn headers_map(headers: Seq<(String, String)>) -> Map<Seq<char>, JsonView>
    decreases headers.len(),
{
    if headers.len() == 0 {
        Map::empty()
    } else {
        headers_map(headers.drop_last()).insert(
            headers.last().0@,
            JsonView::Str(headers.last().1@),
        )
    }
}

/// Sends extra headers with every request of a session.
pub fn set_extra_headers(session_id: &str, headers: &[(String, String)]) -> (made: Command)
    ensures
        made@ == with_params(
            "Network.setExtraHTTPHeaders"@,
            single("headers"@, JsonView::Object(headers_map(headers@))),
            session_id@,
        ),
{
    let mut members: Vec<(String, Json)> = Vec::new();
    let mut i: usize = 0;
    while i < headers.len()
        invariant
            i <= headers@.len(),
            members_view(members@) == headers_map(headers@.take(i as int)),
        decreases headers@.len() - i,
    {
        assert(headers@.take(i + 1).drop_last() =~= headers@.take(i as int));
        push_member(
            &mut members,
            headers[i].0.as_str(),
            Json::from_text(headers[i].1.as_str()),
        );
        i = i + 1;
    }
    assert(headers@.take(headers@.len() as int) =~= headers@);
    command(
        "Network.setExtraHTTPHeaders",
        single_json("headers", Json::Object(members)),
        session_id,
    )
}

/// The conditions of a network that is on or off, with nothing else limited.
pub open spec fn network_conditions(offline: bool) -> JsonView {
    JsonView::Object(
        Map::<Seq<char>, JsonView>::empty().insert("offline"@, JsonView::Bool(offline)).insert(
            "latency"@,
            JsonView::Number(signed_decimal(0)),
        ).insert("downloadThroughput"@, JsonView::Number(signed_decimal(-1))).insert(
            "uploadThroughput"@,
            JsonView::Number(signed_decimal(-1)),
        ),
    )
}

/// Takes a session off the network, or back on it.
pub fn set_offline(session_id: &str, offline: bool) -> (made: Command)
    ensures
        made@ == with_params(
            "Network.emulateNetworkConditions"@,
            network_conditions(offline),
            session_id@,
        ),
{
    let mut members: Vec<(String, Json)> = Vec::new();
    push_member(&mut members, "offline", Json::Bool(offline));
    push_member(&mut members, "latency", Json::from_integer(0));
    push_member(&mut members, "downloadThroughput", Json::from_integer(-1));
    push_member(&mut members, "uploadThroughput", Json::from_integer(-1));
    command("Network.emulateNetworkConditions", Json::Object(members), session_id)
}

/// Asks for the frame tree of a session, which [`set_content`] needs.
pub fn get_frame_tree(session_id: &str) -> (made: Command)
    ensures
        made@ == (CommandView {
            method: "Page.getFrameTree"@,
            params: None,
            session_id: session_id@,
        }),
{
    Command {
        method: "Page.getFrameTree".to_string(),
        params: None,
        session_id: session_id.to_string(),
    }
}

/// The identifier of the main frame in a frame tree.
pub open spec fn main_frame(tree: JsonView) -> Option<Seq<char>> {
    match tree.field("frameTree"@) {
        Some(top) => match top.field("frame"@) {
            Some(frame) => frame.str_field("id"@),
            None => None,
        },
        None => None,
    }
}

/// What replaces the document of a frame.
pub open spec fn document_content(frame_id: Seq<char>, html: Seq<char>) -> JsonView {
    JsonView::Object(
        Map::<Seq<char>, JsonView>::empty().insert("frameId"@, JsonView::Str(frame_id)).insert(
            "html"@,
            JsonView::Str(html),
        ),
    )
}

/// Replaces the document of a session, given the reply to [`get_frame_tree`].
pub fn set_content(session_id: &str, html: &str, tree: &Json) -> (made: Result<Command, String>)
    ensures
        match main_frame(tree@) {
            Some(frame_id) => made is Ok && made->Ok_0@ == with_params(
                "Page.setDocumentContent"@,
                document_content(frame_id, html@),
                session_id@,
            ),
            None => made is Err && made->Err_0@ == "Could not determine frame ID"@,
        },
{
    let frame_id = match tree.get("frameTree") {
        Some(top) => match top.get("frame") {
            Some(frame) => frame.get_str("id"),
            None => None,
        },
        None => None,
    };
    match frame_id {
        Some(id) => {
            let mut members: Vec<(String, Json)> = Vec::new();
            push_member(&mut members, "frameId", Json::from_text(id));
            push_member(&mut members, "html", Json::from_text(html));
            Ok(command("Page.setDocumentContent", Json::Object(members), session_id))
        },
        None => Err("Could not determine frame ID".to_string()),
    }
}

/// Whether a page has to leave what it shows, given the host that was read in its
/// URL: it shows something, and its host is not one to navigate to.
pub open spec fn has_to_leave(filter: FilterView, url: Seq<char>, host: Option<Option<Seq<char>>>) -> bool {
    &&& url.len() > 0
    &&& url != "about:blank"@
    &&& host matches Some(Some(hostname)) && !list_allows(filter.for_navigation(), hostname)
}

/// Decides whether a page has to leave what it shows, given the host that was read
/// in its URL.
pub fn must_leave(filter: &DomainFilter, url: &str, host: &UrlHost) -> (leave: bool)
    ensures
        leave == has_to_leave(filter@, url@, host@),
{
    if url.is_empty() || same_text(url, "about:blank") {
        return false;
    }
    match host {
        UrlHost::Host(hostname) => !filter.is_navigation_allowed(hostname.as_str()),
        _ => false,
    }
}

/// The command that sends a page to the blank page.
pub open spec fn go_blank(session_id: Seq<char>) -> CommandView {
    with_params("Page.navigate"@, single("url"@, JsonView::Str("about:blank"@)), session_id)
}

/// Sends the pages that show what the filter does not allow to the blank page.
pub fn sanitize_existing_pages(pages: &[PageInfo], filter: &DomainFilter) -> (made: Vec<Command>)
    ensures
        commands_view(made@) == pages@.filter(
            |page: PageInfo| has_to_leave(filter@, page.url@, url_host(page.url@)),
        ).map_values(|page: PageInfo| go_blank(page.session_id@)),
{
    let ghost leaves = |page: PageInfo| has_to_leave(filter@, page.url@, url_host(page.url@));
    let ghost send = |page: PageInfo| go_blank(page.session_id@);
    let mut made: Vec<Command> = Vec::new();
    let mut i: usize = 0;
    assert(commands_view(made@) =~= pages@.take(0).filter(leaves).map_values(send)) by {
        reveal(Seq::filter);
    }
    while i < pages.len()
        invariant
            leaves == (|page: PageInfo|
                has_to_leave(filter@, page.url@, url_host(page.url@))),
            send == (|page: PageInfo| go_blank(page.session_id@)),
            i <= pages@.len(),
            commands_view(made@) == pages@.take(i as int).filter(leaves).map_values(send),
        decreases pages@.len() - i,
    {
        let ghost before = commands_view(made@);
        let ghost kept = pages@.take(i as int).filter(leaves);
        proof {
            reveal(Seq::filter);
            assert(pages@.take(i + 1).drop_last() =~= pages@.take(i as int));
        }
        let url = pages[i].url.as_str();
        if must_leave(filter, url, &UrlHost::of(url)) {
            made.push(
                command(
                    "Page.navigate",
                    single_json("url", Json::from_text("about:blank")),
                    pages[i].session_id.as_str(),
                ),
            );
            assert(commands_view(made@) =~= before.push(go_blank(pages@[i as int].session_id@)));
            assert(kept.push(pages@[i as int]).map_values(send) =~= kept.map_values(send).push(
                go_blank(pages@[i as int].session_id@),
            ));
        }
        i = i + 1;
    }
    assert(pages@.take(pages@.len() as int) =~= pages@);
    made
}

/// The script of the domain filter, up to its list of domains.
pub const FILTER_SCRIPT_HEAD: &'static str = r#"(() => {
            const _allowed = "#;

/// The script of the domain filter, from behind its list of domains.
pub const FILTER_SCRIPT_TAIL: &'static str = r#";
            function _isDomainAllowed(hostname) {
                hostname = hostname.toLowerCase();
                for (const p of _allowed) {
                    if (p.startsWith('*.')) {
                        const suffix = p.slice(2);
                        if (hostname === suffix || hostname.endsWith('.' + suffix)) return true;
                    } else if (hostname === p) return true;
                }
                return false;
            }
            const OrigWS = window.WebSocket;
            window.WebSocket = function(url, protocols) {
                try {
                    const u = new URL(url, location.href);
                    if (!_isDomainAllowed(u.hostname)) throw new DOMException('WebSocket blocked: ' + u.hostname, 'SecurityError');
                } catch(e) { if (e instanceof DOMException) throw e; }
                return new OrigWS(url, protocols);
            };
            window.WebSocket.prototype = OrigWS.prototype;
            const OrigES = window.EventSource;
            if (OrigES) {
                window.EventSource = function(url, opts) {
                    try {
                        const u = new URL(url, location.href);
                        if (!_isDomainAllowed(u.hostname)) throw new DOMException('EventSource blocked: ' + u.hostname, 'SecurityError');
                    } catch(e) { if (e instanceof DOMException) throw e; }
                    return new OrigES(url, opts);
                };
                window.EventSource.prototype = OrigES.prototype;
            }
            const origBeacon = navigator.sendBeacon;
            if (origBeacon) {
                navigator.sendBeacon = function(url, data) {
                    try {
                        const u = new URL(url, location.href);
                        if (!_isDomainAllowed(u.hostname)) return false;
                    } catch(e) { return false; }
                    return origBeacon.call(navigator, url, data);
                };
            }
        })()"#;

/// The script that holds connections which request interception does not see to
/// the allowed domains, given the list of those domains as JSON.
pub open spec fn filter_script(domains_json: Seq<char>) -> Seq<char> {
    FILTER_SCRIPT_HEAD@ + domains_json + FILTER_SCRIPT_TAIL@
}

/// Writes the script that holds WebSocket, EventSource and `sendBeacon` to the
/// allowed domains, given the list of those domains as JSON.
pub fn domain_filter_script(domains_json: &str) -> (script: String)
    ensures
        script@ == filter_script(domains_json@),
        script@ == FILTER_SCRIPT_HEAD@ + domains_json@ + FILTER_SCRIPT_TAIL@,
{
    concat3(FILTER_SCRIPT_HEAD, domains_json, FILTER_SCRIPT_TAIL)
}

/// The command that puts a script into every new document.
pub open spec fn add_script(script: Seq<char>, session_id: Seq<char>) -> CommandView {
    with_params(
        "Page.addScriptToEvaluateOnNewDocument"@,
        single("source"@, JsonView::Str(script)),
        session_id,
    )
}

/// Installs the script of the domain filter. Where all resources are allowed there
/// is nothing to install.
pub fn install_domain_filter_script(session_id: &str, filter: &DomainFilter) -> (made: Option<
    Command,
>)
    ensures
        filter@.for_resources().len() == 0 ==> made is None,
        filter@.for_resources().len() > 0 ==> made is Some && made->Some_0@ == add_script(
            filter_script(quoted_list(filter@.for_resources())),
            session_id@,
        ),
{
    let domains = filter.effective_resource_domains();
    if domains.is_empty() {
        return None;
    }
    let domains_json = match strings_json(domains) {
        Ok(text) => text,
        Err(_) => "[]".to_string(),
    };
    let script = domain_filter_script(domains_json.as_str());
    Some(
        command(
            "Page.addScriptToEvaluateOnNewDocument",
            single_json("source", Json::Str(script)),
            session_id,
        ),
    )
}

/// What asks the browser to pause every request.
pub open spec fn intercept_all(handle_auth_requests: bool) -> JsonView {
    let patterns = Map::<Seq<char>, JsonView>::empty().insert(
        "patterns"@,
        JsonView::Array(seq![single("urlPattern"@, JsonView::Str("*"@))]),
    );
    if handle_auth_requests {
        JsonView::Object(patterns.insert("handleAuthRequests"@, JsonView::Bool(true)))
    } else {
        JsonView::Object(patterns)
    }
}

/// The command that pauses every request of a session.
pub open spec fn enable_fetch(handle_auth_requests: bool, session_id: Seq<char>) -> CommandView {
    with_params("Fetch.enable"@, intercept_all(handle_auth_requests), session_id)
}

/// Enables interception of all requests, so that they can be checked against the
/// allowed domains.
pub fn install_domain_filter_fetch(session_id: &str, handle_auth_requests: bool) -> (made: Command)
    ensures
        made@ == enable_fetch(handle_auth_requests, session_id@),
{
    let mut patterns: Vec<Json> = Vec::new();
    let every = single_json("urlPattern", Json::from_text("*"));
    patterns.push(every);
    assert(patterns@.drop_last() =~= Seq::empty());
    assert(items_view(patterns@) =~= seq![every@]) by {
        reveal_with_fuel(items_view, 2);
    }
    let mut members: Vec<(String, Json)> = Vec::new();
    push_member(&mut members, "patterns", Json::Array(patterns));
    if handle_auth_requests {
        push_member(&mut members, "handleAuthRequests", Json::Bool(true));
    }
    command("Fetch.enable", Json::Object(members), session_id)
}

/// Installs both layers of domain filtering on a session, in this order:
/// 1. the script (WebSocket, EventSource, `sendBeacon`)
/// 2. request interception
pub fn install_domain_filter(session_id: &str, filter: &DomainFilter, handle_auth_requests: bool) -> (made:
    Vec<Command>)
    ensures
        commands_view(made@) == (if filter@.for_resources().len() == 0 {
            seq![enable_fetch(handle_auth_requests, session_id@)]
        } else {
            seq![
                add_script(
                    filter_script(quoted_list(filter@.for_resources())),
                    session_id@,
                ),
                enable_fetch(handle_auth_requests, session_id@),
            ]
        }),
{
    let mut made: Vec<Command> = Vec::new();
    match install_domain_filter_script(session_id, filter) {
        Some(script) => made.push(script),
        None => {},
    }
    made.push(install_domain_filter_fetch(session_id, handle_auth_requests));
    assert(commands_view(made@) =~= (if filter@.for_resources().len() == 0 {
        seq![enable_fetch(handle_auth_requests, session_id@)]
    } else {
        seq![
            add_script(filter_script(quoted_list(filter@.for_resources())), session_id@),
            enable_fetch(handle_auth_requests, session_id@),
        ]
    }));
    made
}

/// A page has to leave only where a check of its URL for navigation refuses the
/// host, and every page with a refused host has to leave, but for the blank page.
pub proof fn law_pages_leave_as_urls_are_refused(
    filter: FilterView,
    url: Seq<char>,
    host: Option<Option<Seq<char>>>,
)
    ensures
        has_to_leave(filter, url, host) ==> filter.navigation_verdict(url, host) is Err,
        (filter.navigation_verdict(url, host) is Err && (host matches Some(Some(_))) && url.len() > 0
            && url != "about:blank"@) ==> has_to_leave(filter, url, host),
{
}

/// A command with parameters has the method, the parameters and the session that it
/// was given, and a command holds what it is made of.
pub proof fn law_commands_hold_their_parts(
    method: Seq<char>,
    params: JsonView,
    session_id: Seq<char>,
    command: Command,
)
    ensures
        with_params(method, params, session_id).method == method,
        with_params(method, params, session_id).params == Some(params),
        with_params(method, params, session_id).session_id == session_id,
        command@.method == command.method@,
        command.params is None ==> command@.params is None,
        command.params matches Some(json) ==> command@.params == Some(json@),
        command@.session_id == command.session_id@,
{
}

/// A list of commands holds the commands one by one.
pub proof fn law_commands_one_by_one(commands: Seq<Command>)
    ensures
        commands_view(commands).len() == commands.len(),
        forall|i: int|
            0 <= i < commands.len() ==> #[trigger] commands_view(commands)[i] == commands[i]@,
{
}

/// The headers that are sent have the names that were given.
pub proof fn law_headers_have_their_names(headers: Seq<(String, String)>, name: Seq<char>)
    ensures
        headers_map(headers).contains_key(name) <==> exists|i: int|
            0 <= i < headers.len() && (#[trigger] headers[i]).0@ == name,
    decreases headers.len(),
{
    if headers.len() > 0 {
        let before = headers.drop_last();
        law_headers_have_their_names(before, name);
        if headers_map(before).contains_key(name) {
            let i = choose|i: int| 0 <= i < before.len() && (#[trigger] before[i]).0@ == name;
            assert(headers[i].0@ == name);
        }
        if exists|i: int| 0 <= i < headers.len() && (#[trigger] headers[i]).0@ == name {
            let i = choose|i: int| 0 <= i < headers.len() && (#[trigger] headers[i]).0@ == name;
            if i < before.len() {
                assert(before[i].0@ == name);
            } else {
                assert(headers.last().0@ == name);
            }
        } else {
            assert(headers[headers.len() - 1].0@ != name);
        }
    }
}

/// A header is sent with the value that was given last for its name, as a string.
pub proof fn law_later_header_counts(headers: Seq<(String, String)>, i: int)
    requires
        0 <= i < headers.len(),
        forall|j: int| i < j < headers.len() ==> (#[trigger] headers[j]).0@ != headers[i].0@,
    ensures
        headers_map(headers)[headers[i].0@] == JsonView::Str(headers[i].1@),
    decreases headers.len(),
{
    if i < headers.len() - 1 {
        let before = headers.drop_last();
        assert forall|j: int| i < j < before.len() implies (#[trigger] before[j]).0@
            != before[i].0@ by {
            assert(headers[j].0@ != headers[i].0@);
        }
        law_later_header_counts(before, i);
        assert(headers[headers.len() - 1].0@ != headers[i].0@);
    }
}

/// The conditions of a network say whether it is off, and limit neither its latency
/// nor its throughput. They say nothing else.
pub proof fn law_network_is_off_or_unlimited(offline: bool, name: Seq<char>)
    ensures
        network_conditions(offline).field("offline"@) == Some(JsonView::Bool(offline)),
        network_conditions(offline).field("latency"@) == Some(JsonView::Number("0"@)),
        network_conditions(offline).field("downloadThroughput"@) == Some(JsonView::Number("-1"@)),
        network_conditions(offline).field("uploadThroughput"@) == Some(JsonView::Number("-1"@)),
        network_conditions(offline).field(name) is Some ==> name == "offline"@ || name == "latency"@
            || name == "downloadThroughput"@ || name == "uploadThroughput"@,
        name != "offline"@ ==> network_conditions(offline).field(name) == network_conditions(
            !offline,
        ).field(name),
{
    reveal_strlit("offline");
    reveal_strlit("latency");
    reveal_strlit("downloadThroughput");
    reveal_strlit("uploadThroughput");
    reveal_strlit("0");
    reveal_strlit("-1");
    assert("offline"@[0] != "latency"@[0]);
    assert("offline"@.len() == 7 && "latency"@.len() == 7 && "downloadThroughput"@.len() == 18
        && "uploadThroughput"@.len() == 16);
    assert(signed_decimal(0) =~= "0"@);
    assert(signed_decimal(-1) =~= "-1"@);
}

/// The main frame of a tree is the string `id` of the `frame` of its `frameTree`, and a
/// tree without that has none.
pub proof fn law_main_frame_is_found(tree: JsonView, id: Seq<char>)
    ensures
        main_frame(tree) == Some(id) <==> (tree.field("frameTree"@) matches Some(top)
            && top.field("frame"@) matches Some(frame) && frame.field("id"@) == Some(
            JsonView::Str(id),
        )),
{
}

/// What replaces a document names the frame and holds the document, and nothing else.
pub proof fn law_document_goes_to_its_frame(
    frame_id: Seq<char>,
    html: Seq<char>,
    name: Seq<char>,
)
    ensures
        document_content(frame_id, html).field("frameId"@) == Some(JsonView::Str(frame_id)),
        document_content(frame_id, html).field("html"@) == Some(JsonView::Str(html)),
        document_content(frame_id, html).field(name) is Some ==> name == "frameId"@ || name
            == "html"@,
{
    reveal_strlit("frameId");
    reveal_strlit("html");
    assert("frameId"@.len() != "html"@.len());
}

/// A page has to leave exactly where it shows something, its URL has a host, and a
/// list that is in force for navigation does not allow that host.
pub proof fn law_page_leaves_with_a_refused_host(
    filter: FilterView,
    url: Seq<char>,
    hostname: Seq<char>,
)
    ensures
        !has_to_leave(filter, url, None),
        !has_to_leave(filter, url, Some(None)),
        has_to_leave(filter, url, Some(Some(hostname))) <==> url.len() > 0 && url != "about:blank"@
            && filter.for_navigation().len() > 0 && !list_allows(filter.for_navigation(), hostname),
{
}

/// A page that has to leave is sent to the blank page, in its own session.
pub proof fn law_page_is_sent_to_the_blank_page(session_id: Seq<char>, name: Seq<char>)
    ensures
        go_blank(session_id).method == "Page.navigate"@,
        go_blank(session_id).session_id == session_id,
        go_blank(session_id).params matches Some(params) && params.field("url"@) == Some(
            JsonView::Str("about:blank"@),
        ) && (params.field(name) is Some ==> name == "url"@),
{
}

/// A script is put into every new document of its session, as it is.
pub proof fn law_script_is_added_as_it_is(
    script: Seq<char>,
    session_id: Seq<char>,
    name: Seq<char>,
)
    ensures
        add_script(script, session_id).method == "Page.addScriptToEvaluateOnNewDocument"@,
        add_script(script, session_id).session_id == session_id,
        add_script(script, session_id).params matches Some(params) && params.field("source"@)
            == Some(JsonView::Str(script)) && (params.field(name) is Some ==> name == "source"@),
{
}

/// Interception pauses every request of its session, by the one pattern `*`, and asks
/// for the requests for credentials exactly where it was told to.
pub proof fn law_every_request_is_paused(
    handle_auth_requests: bool,
    session_id: Seq<char>,
    name: Seq<char>,
)
    ensures
        enable_fetch(handle_auth_requests, session_id).method == "Fetch.enable"@,
        enable_fetch(handle_auth_requests, session_id).session_id == session_id,
        enable_fetch(handle_auth_requests, session_id).params matches Some(params) && {
            &&& params.field("patterns"@) matches Some(JsonView::Array(patterns)) && patterns.len()
                == 1 && patterns[0].field("urlPattern"@) == Some(JsonView::Str("*"@)) && (
            patterns[0].field(name) is Some ==> name == "urlPattern"@)
            &&& params.field("handleAuthRequests"@) == (if handle_auth_requests {
                Some(JsonView::Bool(true))
            } else {
                None
            })
            &&& params.field(name) is Some ==> name == "patterns"@ || name == "handleAuthRequests"@
        },
{
    reveal_strlit("patterns");
    reveal_strlit("handleAuthRequests");
    assert("patterns"@.len() != "handleAuthRequests"@.len());
}

/// The script is this text, with the list of domains in its place. A hostname is
/// allowed that is one of the domains, or that is or ends with what stands behind a
/// leading `*.`. WebSocket, EventSource and `sendBeacon` each ask for that first.
pub proof fn law_script_spelled_out(domains_json: Seq<char>)
    ensures
        filter_script(domains_json) == r#"(() => {
            const _allowed = "#@ + domains_json + r#";
            function _isDomainAllowed(hostname) {
                hostname = hostname.toLowerCase();
                for (const p of _allowed) {
                    if (p.startsWith('*.')) {
                        const suffix = p.slice(2);
                        if (hostname === suffix || hostname.endsWith('.' + suffix)) return true;
                    } else if (hostname === p) return true;
                }
                return false;
            }
            const OrigWS = window.WebSocket;
            window.WebSocket = function(url, protocols) {
                try {
                    const u = new URL(url, location.href);
                    if (!_isDomainAllowed(u.hostname)) throw new DOMException('WebSocket blocked: ' + u.hostname, 'SecurityError');
                } catch(e) { if (e instanceof DOMException) throw e; }
                return new OrigWS(url, protocols);
            };
            window.WebSocket.prototype = OrigWS.prototype;
            const OrigES = window.EventSource;
            if (OrigES) {
                window.EventSource = function(url, opts) {
                    try {
                        const u = new URL(url, location.href);
                        if (!_isDomainAllowed(u.hostname)) throw new DOMException('EventSource blocked: ' + u.hostname, 'SecurityError');
                    } catch(e) { if (e instanceof DOMException) throw e; }
                    return new OrigES(url, opts);
                };
                window.EventSource.prototype = OrigES.prototype;
            }
            const origBeacon = navigator.sendBeacon;
            if (origBeacon) {
                navigator.sendBeacon = function(url, data) {
                    try {
                        const u = new URL(url, location.href);
                        if (!_isDomainAllowed(u.hostname)) return false;
                    } catch(e) { return false; }
                    return origBeacon.call(navigator, url, data);
                };
            }
        })()"#@,
{
}

/// A stretch of what stands behind the list of domains is a part of the script.
proof fn lemma_part_of_script(domains_json: Seq<char>, part: Seq<char>, at: int)
    requires
        0 <= at <= at + part.len() <= FILTER_SCRIPT_TAIL@.len(),
        FILTER_SCRIPT_TAIL@.subrange(at, at + part.len()) == part,
    ensures
        exists|before: Seq<char>, after: Seq<char>|
            filter_script(domains_json) == #[trigger] (before + part + after),
{
    let tail = FILTER_SCRIPT_TAIL@;
    let before = FILTER_SCRIPT_HEAD@ + domains_json + tail.take(at);
    let after = tail.skip(at + part.len());
    assert(tail =~= tail.take(at) + tail.subrange(at, at + part.len()) + after);
    assert(filter_script(domains_json) =~= before + part + after);
}

/// Whatever the list of domains is, the script holds the two ways in which a hostname
/// is allowed, and the three connections that are held to them.
pub proof fn law_script_guards_its_connections(domains_json: Seq<char>)
    ensures
        exists|before: Seq<char>, after: Seq<char>|
            filter_script(domains_json) == #[trigger] (before + "} else if (hostname === p) return true;"@ + after),
        exists|before: Seq<char>, after: Seq<char>|
            filter_script(domains_json) == #[trigger] (before + "if (hostname === suffix || hostname.endsWith('.' + suffix)) return true;"@ + after),
        exists|before: Seq<char>, after: Seq<char>|
            filter_script(domains_json) == #[trigger] (before + "if (!_isDomainAllowed(u.hostname)) throw new DOMException('WebSocket blocked: ' + u.hostname, 'SecurityError');"@ + after),
        exists|before: Seq<char>, after: Seq<char>|
            filter_script(domains_json) == #[trigger] (before + "if (!_isDomainAllowed(u.hostname)) throw new DOMException('EventSource blocked: ' + u.hostname, 'SecurityError');"@ + after),
        exists|before: Seq<char>, after: Seq<char>|
            filter_script(domains_json) == #[trigger] (before + "if (!_isDomainAllowed(u.hostname)) return false;"@ + after),
{
    reveal_strlit(r#";
            function _isDomainAllowed(hostname) {
                hostname = hostname.toLowerCase();
                for (const p of _allowed) {
                    if (p.startsWith('*.')) {
                        const suffix = p.slice(2);
                        if (hostname === suffix || hostname.endsWith('.' + suffix)) return true;
                    } else if (hostname === p) return true;
                }
                return false;
            }
            const OrigWS = window.WebSocket;
            window.WebSocket = function(url, protocols) {
                try {
                    const u = new URL(url, location.href);
                    if (!_isDomainAllowed(u.hostname)) throw new DOMException('WebSocket blocked: ' + u.hostname, 'SecurityError');
                } catch(e) { if (e instanceof DOMException) throw e; }
                return new OrigWS(url, protocols);
            };
            window.WebSocket.prototype = OrigWS.prototype;
            const OrigES = window.EventSource;
            if (OrigES) {
                window.EventSource = function(url, opts) {
                    try {
                        const u = new URL(url, location.href);
                        if (!_isDomainAllowed(u.hostname)) throw new DOMException('EventSource blocked: ' + u.hostname, 'SecurityError');
                    } catch(e) { if (e instanceof DOMException) throw e; }
                    return new OrigES(url, opts);
                };
                window.EventSource.prototype = OrigES.prototype;
            }
            const origBeacon = navigator.sendBeacon;
            if (origBeacon) {
                navigator.sendBeacon = function(url, data) {
                    try {
                        const u = new URL(url, location.href);
                        if (!_isDomainAllowed(u.hostname)) return false;
                    } catch(e) { return false; }
                    return origBeacon.call(navigator, url, data);
                };
            }
        })()"#);
    reveal_strlit("} else if (hostname === p) return true;");
    reveal_strlit("if (hostname === suffix || hostname.endsWith('.' + suffix)) return true;");
    reveal_strlit("if (!_isDomainAllowed(u.hostname)) throw new DOMException('WebSocket blocked: ' + u.hostname, 'SecurityError');");
    reveal_strlit("if (!_isDomainAllowed(u.hostname)) throw new DOMException('EventSource blocked: ' + u.hostname, 'SecurityError');");
    reveal_strlit("if (!_isDomainAllowed(u.hostname)) return false;");
    let tail = FILTER_SCRIPT_TAIL@;
    assert(tail.subrange(361, 400) =~= "} else if (hostname === p) return true;"@);
    assert(tail.subrange(268, 340) =~= "if (hostname === suffix || hostname.endsWith('.' + suffix)) return true;"@);
    assert(tail.subrange(667, 778) =~= "if (!_isDomainAllowed(u.hostname)) throw new DOMException('WebSocket blocked: ' + u.hostname, 'SecurityError');"@);
    assert(tail.subrange(1220, 1333) =~= "if (!_isDomainAllowed(u.hostname)) throw new DOMException('EventSource blocked: ' + u.hostname, 'SecurityError');"@);
    assert(tail.subrange(1814, 1862) =~= "if (!_isDomainAllowed(u.hostname)) return false;"@);
    lemma_part_of_script(domains_json, "} else if (hostname === p) return true;"@, 361);
    lemma_part_of_script(domains_json, "if (hostname === suffix || hostname.endsWith('.' + suffix)) return true;"@, 268);
    lemma_part_of_script(domains_json, "if (!_isDomainAllowed(u.hostname)) throw new DOMException('WebSocket blocked: ' + u.hostname, 'SecurityError');"@, 667);
    lemma_part_of_script(domains_json, "if (!_isDomainAllowed(u.hostname)) throw new DOMException('EventSource blocked: ' + u.hostname, 'SecurityError');"@, 1220);
    lemma_part_of_script(domains_json, "if (!_isDomainAllowed(u.hostname)) return false;"@, 1814);
}

} // verus!
