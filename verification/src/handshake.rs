//! The handshake with a local development server: before the agent navigates to
//! localhost, the server there has to name the expected application.

use crate::domains::verdict;
use crate::json::{Json, JsonView};
use crate::text::{concat2, concat3, decimal, decimal_text, digit, same_text};
use vstd::hash_map::StringHashMap;
use vstd::prelude::*;

verus! {

/// The path that is asked for the name of the application.
pub const LOCALHOST_HANDSHAKE_PATH: &'static str = "/api/__agent-browser-handshake";

/// The name that the application has to give.
pub const LOCALHOST_HANDSHAKE_EXPECT: &'static str = "leonardo-platform";

/// How long the request may take, in seconds.
pub const HANDSHAKE_TIMEOUT_SECONDS: u64 = 3;

/// Whether a hostname is a localhost-family address.
pub open spec fn localhost_family(hostname: Seq<char>) -> bool {
    ||| hostname == "localhost"@
    ||| hostname == "127.0.0.1"@
    ||| hostname == "0.0.0.0"@
    ||| hostname == "[::1]"@
    ||| hostname == "::1"@
}

/// Returns `true` if the hostname is a localhost-family address.
pub fn is_localhost(hostname: &str) -> (local: bool)
    ensures
        local == localhost_family(hostname@),
{
    same_text(hostname, "localhost") || same_text(hostname, "127.0.0.1") || same_text(
        hostname,
        "0.0.0.0",
    ) || same_text(hostname, "[::1]") || same_text(hostname, "::1")
}

/// A host and a port, with a colon between them.
pub open spec fn host_and_port(host: Seq<char>, port: u16) -> Seq<char> {
    host + ":"@ + decimal(port as nat)
}

/// The address of the handshake.
pub open spec fn handshake_address(host: Seq<char>, port: u16) -> Seq<char> {
    "http://"@ + host_and_port(host, port) + LOCALHOST_HANDSHAKE_PATH@
}

/// The refusal of a server that did not give the expected name.
pub open spec fn blocked(port: u16) -> Seq<char> {
    "[agent-browser] localhost:"@ + decimal(port as nat)
        + " did not pass application handshake, navigation blocked"@
}

/// What became of the handshake request.
#[derive(Debug)]
pub enum HandshakeReply {
    /// No client could be set up for the request.
    ClientError(String),
    /// The server could not be reached.
    Unreachable,
    /// The reply is not JSON.
    NotJson,
    Body(Json),
}

/// What a reply holds.
pub enum ReplyView {
    ClientError(Seq<char>),
    Unreachable,
    NotJson,
    Body(JsonView),
}

impl View for HandshakeReply {
    type V = ReplyView;

    open spec fn view(&self) -> ReplyView {
        match self {
            HandshakeReply::ClientError(message) => ReplyView::ClientError(message@),
            HandshakeReply::Unreachable => ReplyView::Unreachable,
            HandshakeReply::NotJson => ReplyView::NotJson,
            HandshakeReply::Body(json) => ReplyView::Body(json@),
        }
    }
}

/// What a handshake says, given the reply.
pub open spec fn handshake_verdict(host: Seq<char>, port: u16, reply: ReplyView) -> Result<
    (),
    Seq<char>,
> {
    match reply {
        ReplyView::ClientError(message) => Err("[agent-browser] HTTP client error: "@ + message),
        ReplyView::Unreachable => Err(
            "[agent-browser] Could not reach "@ + host_and_port(host, port)
                + " — is the dev server running?"@,
        ),
        ReplyView::NotJson => Err(blocked(port)),
        ReplyView::Body(json) => if json.str_field("app"@) == Some(LOCALHOST_HANDSHAKE_EXPECT@) {
            Ok(())
        } else {
            Err(blocked(port))
        },
    }
}

/// Writes a host and a port, with a colon between them.
fn host_port_text(host: &str, port: u16) -> (text: String)
    ensures
        text@ == host_and_port(host@, port),
{
    concat3(host, ":", decimal_text(port as u64).as_str())
}

/// The address to ask for the handshake.
pub fn handshake_url(host: &str, port: u16) -> (url: String)
    ensures
        url@ == handshake_address(host@, port),
{
    concat3("http://", host_port_text(host, port).as_str(), LOCALHOST_HANDSHAKE_PATH)
}

/// Writes the refusal of a server that did not give the expected name.
fn blocked_message(port: u16) -> (message: String)
    ensures
        message@ == blocked(port),
{
    concat3(
        "[agent-browser] localhost:",
        decimal_text(port as u64).as_str(),
        " did not pass application handshake, navigation blocked",
    )
}

/// Judges the reply to a handshake request.
pub fn check_localhost_handshake(host: &str, port: u16, reply: &HandshakeReply) -> (outcome: Result<
    (),
    String,
>)
    ensures
        verdict(outcome) == handshake_verdict(host@, port, reply@),
{
    match reply {
        HandshakeReply::ClientError(message) => Err(
            concat2("[agent-browser] HTTP client error: ", message.as_str()),
        ),
        HandshakeReply::Unreachable => Err(
            concat3(
                "[agent-browser] Could not reach ",
                host_port_text(host, port).as_str(),
                " — is the dev server running?",
            ),
        ),
        HandshakeReply::NotJson => Err(blocked_message(port)),
        HandshakeReply::Body(json) => {
            let passed = match json.get_str("app") {
                Some(name) => same_text(name, LOCALHOST_HANDSHAKE_EXPECT),
                None => false,
            };
            if passed {
                Ok(())
            } else {
                Err(blocked_message(port))
            }
        },
    }
}

/// The outcomes of the handshakes of a session, by host and port.
pub struct HandshakeCache {
    results: StringHashMap<bool>,
}

impl View for HandshakeCache {
    type V = Map<Seq<char>, bool>;

    closed spec fn view(&self) -> Map<Seq<char>, bool> {
        self.results@
    }
}

/// What to do about a server.
#[derive(Debug)]
pub enum HandshakeStep {
    /// The outcome is known.
    Done(Result<(), String>),
    /// The server has to be asked, at this address.
    Ask(String),
}

/// What a step holds.
pub enum StepView {
    Done(Result<(), Seq<char>>),
    Ask(Seq<char>),
}

impl View for HandshakeStep {
    type V = StepView;

    open spec fn view(&self) -> StepView {
        match self {
            HandshakeStep::Done(outcome) => StepView::Done(verdict(*outcome)),
            HandshakeStep::Ask(url) => StepView::Ask(url@),
        }
    }
}

/// The first step of a handshake, given the outcomes so far: one that is known is
/// given again, any other server is asked.
pub open spec fn first_step(results: Map<Seq<char>, bool>, host: Seq<char>, port: u16) -> StepView {
    let key = host_and_port(host, port);
    if results.contains_key(key) {
        StepView::Done(
            if results[key] {
                Ok(())
            } else {
                Err(blocked(port))
            },
        )
    } else {
        StepView::Ask(handshake_address(host, port))
    }
}

impl HandshakeCache {
    /// A cache without outcomes.
    pub fn new() -> (cache: HandshakeCache)
        ensures
            cache@ == Map::<Seq<char>, bool>::empty(),
    {
        HandshakeCache { results: StringHashMap::new() }
    }

    /// Starts a handshake: gives the outcome that is known, or says where to ask.
    pub fn check_cached_handshake(&self, host: &str, port: u16) -> (step: HandshakeStep)
        ensures
            step@ == first_step(self@, host@, port),
    {
        match self.results.get(host_port_text(host, port).as_str()) {
            Some(passed) => HandshakeStep::Done(
                if *passed {
                    Ok(())
                } else {
                    Err(blocked_message(port))
                },
            ),
            None => HandshakeStep::Ask(handshake_url(host, port)),
        }
    }

    /// Ends a handshake: judges the reply and remembers whether it passed.
    pub fn complete_handshake(&mut self, host: &str, port: u16, reply: &HandshakeReply) -> (outcome:
        Result<(), String>)
        ensures
            verdict(outcome) == handshake_verdict(host@, port, reply@),
            final(self)@ == old(self)@.insert(
                host_and_port(host@, port),
                handshake_verdict(host@, port, reply@) is Ok,
            ),
    {
        let outcome = check_localhost_handshake(host, port, reply);
        let passed = outcome.is_ok();
        self.results.insert(host_port_text(host, port), passed);
        outcome
    }
}

/// After the first handshake with a server its outcome is known: the server is not
/// asked again, and the outcome is the one that was remembered.
pub proof fn law_handshake_is_remembered(
    results: Map<Seq<char>, bool>,
    host: Seq<char>,
    port: u16,
    reply: ReplyView,
)
    ensures
        first_step(
            results.insert(
                host_and_port(host, port),
                handshake_verdict(host, port, reply) is Ok,
            ),
            host,
            port,
        ) == StepView::Done(
            if handshake_verdict(host, port, reply) is Ok {
                Ok(())
            } else {
                Err(blocked(port))
            },
        ),
{
}

/// A handshake with one server says nothing of another: its outcome changes no
/// other server's first step.
pub proof fn law_handshakes_are_independent(
    results: Map<Seq<char>, bool>,
    host: Seq<char>,
    port: u16,
    passed: bool,
    other_host: Seq<char>,
    other_port: u16,
)
    requires
        host != other_host || port != other_port,
    ensures
        first_step(results.insert(host_and_port(host, port), passed), other_host, other_port)
            == first_step(results, other_host, other_port),
{
    if host_and_port(host, port) == host_and_port(other_host, other_port) {
        law_host_and_port_are_told_apart(host, port, other_host, other_port);
    }
}

/// Different servers have different texts.
pub proof fn law_host_and_port_are_told_apart(a: Seq<char>, p: u16, b: Seq<char>, q: u16)
    requires
        host_and_port(a, p) == host_and_port(b, q),
    ensures
        a == b,
        p == q,
{
    reveal_strlit(":");
    let whole = host_and_port(a, p);
    lemma_decimal_digits(p as nat);
    lemma_decimal_digits(q as nat);
    let da = decimal(p as nat);
    let db = decimal(q as nat);
    assert(":"@ =~= seq![':']);
    assert(whole.len() == a.len() + 1 + da.len());
    assert(whole.len() == b.len() + 1 + db.len());
    if a.len() < b.len() {
        assert(host_and_port(b, q)[b.len() as int] == ':');
        assert(whole[b.len() as int] == da[b.len() - a.len() - 1]);
    } else if b.len() < a.len() {
        assert(whole[a.len() as int] == ':');
        assert(host_and_port(b, q)[a.len() as int] == db[a.len() - b.len() - 1]);
    }
    assert(whole.take(a.len() as int) =~= a);
    assert(host_and_port(b, q).take(b.len() as int) =~= b);
    assert(whole.skip(a.len() as int + 1) =~= da);
    assert(host_and_port(b, q).skip(b.len() as int + 1) =~= db);
    lemma_decimal_injective(p as nat, q as nat);
}

/// A numeral is made of digits, the value of the last being the remainder by ten.
proof fn lemma_decimal_digits(n: nat)
    ensures
        decimal(n).len() >= 1,
        forall|i: int| 0 <= i < decimal(n).len() ==> '0' <= #[trigger] decimal(n)[i] <= '9',
        decimal(n).last() == digit(n % 10),
        n < 10 <==> decimal(n).len() == 1,
    decreases n,
{
    if n >= 10 {
        lemma_decimal_digits(n / 10);
    }
}

/// Different numbers have different numerals.
proof fn lemma_decimal_injective(n: nat, m: nat)
    requires
        decimal(n) == decimal(m),
    ensures
        n == m,
    decreases n,
{
    lemma_decimal_digits(n);
    lemma_decimal_digits(m);
    assert(n % 10 == m % 10);
    if n >= 10 {
        assert(decimal(n).drop_last() =~= decimal(n / 10));
        assert(decimal(m).drop_last() =~= decimal(m / 10));
        lemma_decimal_injective(n / 10, m / 10);
    }
}

/// A handshake passes exactly where the reply is a JSON object whose member `app` is
/// the string `leonardo-platform`.
pub proof fn law_handshake_passes_with_the_name(host: Seq<char>, port: u16, reply: ReplyView)
    ensures
        handshake_verdict(host, port, reply) is Ok <==> (reply matches ReplyView::Body(
            JsonView::Object(members),
        ) && members.contains_key("app"@) && members["app"@] == JsonView::Str(
            "leonardo-platform"@,
        )),
{
}

/// A handshake that fails says why. A reply that is not the expected one is refused
/// in the same words, whatever it is and whatever the host is called.
pub proof fn law_failed_handshake_says_why(
    host: Seq<char>,
    port: u16,
    message: Seq<char>,
    body: JsonView,
    other_host: Seq<char>,
)
    ensures
        handshake_verdict(host, port, ReplyView::ClientError(message)) == Err::<(), Seq<char>>(
            "[agent-browser] HTTP client error: "@ + message,
        ),
        handshake_verdict(host, port, ReplyView::Unreachable) == Err::<(), Seq<char>>(
            "[agent-browser] Could not reach "@ + (host + ":"@ + decimal(port as nat))
                + " — is the dev server running?"@,
        ),
        handshake_verdict(host, port, ReplyView::NotJson) == Err::<(), Seq<char>>(
            "[agent-browser] localhost:"@ + decimal(port as nat)
                + " did not pass application handshake, navigation blocked"@,
        ),
        handshake_verdict(host, port, ReplyView::Body(body)) is Err ==> handshake_verdict(
            host,
            port,
            ReplyView::Body(body),
        ) == handshake_verdict(other_host, port, ReplyView::NotJson),
{
}

/// A server is asked exactly where nothing is remembered of it, at the path of the
/// handshake on its host and port. Otherwise it is as it was remembered: passed, or
/// refused in the words of a reply that was not the expected one.
pub proof fn law_unknown_server_is_asked(
    results: Map<Seq<char>, bool>,
    host: Seq<char>,
    port: u16,
)
    ensures
        first_step(results, host, port) is Ask <==> !results.contains_key(
            host + ":"@ + decimal(port as nat),
        ),
        first_step(results, host, port) matches StepView::Ask(url) ==> url == "http://"@ + (host
            + ":"@ + decimal(port as nat)) + "/api/__agent-browser-handshake"@,
        first_step(results, host, port) matches StepView::Done(outcome) ==> outcome is Ok
            == results[host + ":"@ + decimal(port as nat)] && (outcome is Err ==> outcome
            == handshake_verdict(host, port, ReplyView::NotJson)),
{
}

/// The text of a host and a port is the host, a colon and the numeral of the port,
/// and the address of a handshake is that text between the scheme and the path.
pub proof fn law_addresses_are_spelled_out(host: Seq<char>, port: u16)
    ensures
        host_and_port(host, port).take(host.len() as int) == host,
        host_and_port(host, port)[host.len() as int] == ':',
        host_and_port(host, port).skip(host.len() as int + 1) == decimal(port as nat),
        handshake_address(host, port) == "http://"@ + host_and_port(host, port)
            + "/api/__agent-browser-handshake"@,
{
    reveal_strlit(":");
    assert(host_and_port(host, port).take(host.len() as int) =~= host);
    assert(host_and_port(host, port).skip(host.len() as int + 1) =~= decimal(port as nat));
}

/// The family of localhost has five names, spelled exactly so.
pub proof fn law_localhost_has_five_names(hostname: Seq<char>)
    ensures
        localhost_family(hostname) <==> seq![
            "localhost"@,
            "127.0.0.1"@,
            "0.0.0.0"@,
            "[::1]"@,
            "::1"@,
        ].contains(hostname),
{
    let names = seq!["localhost"@, "127.0.0.1"@, "0.0.0.0"@, "[::1]"@, "::1"@];
    assert(names[0] == "localhost"@ && names[1] == "127.0.0.1"@ && names[2] == "0.0.0.0"@
        && names[3] == "[::1]"@ && names[4] == "::1"@);
}

/// A reply and a step hold what they are made of.
pub proof fn law_replies_and_steps_hold_their_parts(reply: HandshakeReply, step: HandshakeStep)
    ensures
        reply matches HandshakeReply::ClientError(message) ==> reply@ == ReplyView::ClientError(
            message@,
        ),
        reply is Unreachable ==> reply@ == ReplyView::Unreachable,
        reply is NotJson ==> reply@ == ReplyView::NotJson,
        reply matches HandshakeReply::Body(json) ==> reply@ == ReplyView::Body(json@),
        step matches HandshakeStep::Ask(url) ==> step@ == StepView::Ask(url@),
        step matches HandshakeStep::Done(outcome) ==> (step@ matches StepView::Done(known)
            && known is Ok == outcome is Ok && (outcome matches Err(message) ==> known == Err::<
            (),
            Seq<char>,
        >(message@))),
{
}

/// The request of a handshake may take three seconds, and asks at a path on the server.
pub proof fn law_request_is_short()
    ensures
        HANDSHAKE_TIMEOUT_SECONDS == 3,
        LOCALHOST_HANDSHAKE_PATH@.len() > 0,
        LOCALHOST_HANDSHAKE_PATH@.first() == '/',
{
    reveal_strlit("/api/__agent-browser-handshake");
}

} // verus!
