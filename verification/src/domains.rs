//! The domain filter: which hosts the agent may navigate to, and which hosts a
//! page may load from.

use crate::glob::{
    domain_matches, glob_match_domain, law_beginnings_and_ends, law_literal_pattern,
    law_wildcard_label,
};
use crate::text::{
    ascii_lower, concat2, concat3, is_white_space, joined, law_ascii_lowercase,
    law_joined_pieces, law_pieces_in_a_row, law_single_piece, lemma_pieces_joined, lemma_trimmed,
    lemma_trimmed_already, lowercase, optional_str, pieces, split_at_char, texts, trimmed,
};
use crate::urls::{url_host, UrlHost};
use vstd::prelude::*;
use vstd::utf8::is_ascii_chars;

verus! {

/// The pieces of a comma-separated list without the white space around them, the
/// empty ones left out.
pub open spec fn list_stems(input: Seq<char>) -> Seq<Seq<char>> {
    pieces(input, ',').map_values(|piece: Seq<char>| trimmed(piece)).filter(
        |stem: Seq<char>| stem.len() > 0,
    )
}

/// The domains that a comma-separated list names: each piece that is more than white
/// space, without the white space around it and in lower case.
pub open spec fn domain_list(input: Seq<char>) -> Seq<Seq<char>> {
    list_stems(input).map_values(|stem: Seq<char>| lowercase(stem))
}

/// Whether a list of domain patterns allows a hostname: an empty list allows
/// every one, any other those that a pattern covers. Case does not matter.
pub open spec fn list_allows(domains: Seq<Seq<char>>, hostname: Seq<char>) -> bool {
    ||| domains.len() == 0
    ||| exists|i: int|
        0 <= i < domains.len() && domain_matches(#[trigger] domains[i], lowercase(hostname))
}

/// What a check says: nothing, or the message of a refusal.
pub open spec fn verdict(outcome: Result<(), String>) -> Result<(), Seq<char>> {
    match outcome {
        Ok(()) => Ok(()),
        Err(message) => Err(message@),
    }
}

/// What a check of a URL against a list of domains says, given the host that was
/// read in the URL and the end of the refusal.
pub open spec fn url_verdict(
    domains: Seq<Seq<char>>,
    url: Seq<char>,
    host: Option<Option<Seq<char>>>,
    refusal: Seq<char>,
) -> Result<(), Seq<char>> {
    if domains.len() == 0 {
        Ok(())
    } else {
        match host {
            None => Err("Invalid URL: "@ + url),
            Some(None) => Err("No hostname in URL: "@ + url),
            Some(Some(hostname)) => if list_allows(domains, hostname) {
                Ok(())
            } else {
                Err("Domain '"@ + hostname + refusal)
            },
        }
    }
}

/// The three lists of a domain filter.
#[verifier::ext_equal]
pub struct FilterView {
    pub navigation: Seq<Seq<char>>,
    pub resource: Seq<Seq<char>>,
    pub allowed: Seq<Seq<char>>,
}

impl FilterView {
    /// The list that governs navigation.
    pub open spec fn for_navigation(self) -> Seq<Seq<char>> {
        if self.navigation.len() > 0 {
            self.navigation
        } else {
            self.allowed
        }
    }

    /// The list that governs sub-resources.
    pub open spec fn for_resources(self) -> Seq<Seq<char>> {
        if self.resource.len() > 0 {
            self.resource
        } else {
            self.allowed
        }
    }

    /// Whether any list names a domain.
    pub open spec fn active(self) -> bool {
        self.allowed.len() > 0 || self.navigation.len() > 0 || self.resource.len() > 0
    }

    /// What a check of a URL for navigation says, given the host read in it.
    pub open spec fn navigation_verdict(
        self,
        url: Seq<char>,
        host: Option<Option<Seq<char>>>,
    ) -> Result<(), Seq<char>> {
        url_verdict(
            self.for_navigation(),
            url,
            host,
            "' is not in the allowed navigation domains list"@,
        )
    }

    /// What a check of a URL against the unified list says, given the host read
    /// in it.
    pub open spec fn unified_verdict(self, url: Seq<char>, host: Option<Option<Seq<char>>>) -> Result<
        (),
        Seq<char>,
    > {
        url_verdict(self.allowed, url, host, "' is not in the allowed domains list"@)
    }
}

#[derive(Debug, Clone)]
pub struct DomainFilter {
    /// Domains the agent is allowed to navigate to (open, click, form submit).
    /// When empty, all navigation is allowed.
    pub navigation_domains: Vec<String>,
    /// Domains the page is allowed to load sub-resources from (fetch, XHR,
    /// images, scripts, WebSocket, etc.). When empty, all resources are allowed.
    pub resource_domains: Vec<String>,
    /// Legacy unified list: if `navigation_domains` or `resource_domains` is
    /// empty, the corresponding check falls back to this list.
    pub allowed_domains: Vec<String>,
}

impl View for DomainFilter {
    type V = FilterView;

    open spec fn view(&self) -> FilterView {
        FilterView {
            navigation: texts(self.navigation_domains@),
            resource: texts(self.resource_domains@),
            allowed: texts(self.allowed_domains@),
        }
    }
}

/// Reads a comma-separated list of domains. No domain that it names is empty.
pub fn parse_domain_list(input: &str) -> (domains: Vec<String>)
    ensures
        texts(domains@) == domain_list(input@),
        forall|i: int| 0 <= i < domains@.len() ==> (#[trigger] domains@[i])@.len() > 0,
{
    let parts = split_at_char(input, ',');
    let ghost stems = pieces(input@, ',').map_values(|piece: Seq<char>| trimmed(piece));
    let ghost named = |stem: Seq<char>| stem.len() > 0;
    let ghost lower = |stem: Seq<char>| lowercase(stem);
    let mut domains: Vec<String> = Vec::new();
    let mut i: usize = 0;
    assert(texts(domains@) =~= stems.take(0).filter(named).map_values(lower)) by {
        reveal(Seq::filter);
    }
    while i < parts.len()
        invariant
            texts(parts@) == pieces(input@, ','),
            stems == pieces(input@, ',').map_values(|piece: Seq<char>| trimmed(piece)),
            named == (|stem: Seq<char>| stem.len() > 0),
            lower == (|stem: Seq<char>| lowercase(stem)),
            i <= parts@.len(),
            texts(domains@) == stems.take(i as int).filter(named).map_values(lower),
            forall|j: int| 0 <= j < domains@.len() ==> (#[trigger] domains@[j])@.len() > 0,
        decreases parts@.len() - i,
    {
        let domain = parts[i].as_str().trim().to_lowercase();
        let ghost before = texts(domains@);
        let ghost stem = stems[i as int];
        proof {
            reveal(Seq::filter);
            assert(texts(parts@)[i as int] == parts@[i as int]@);
            assert(stems.take(i + 1).drop_last() =~= stems.take(i as int));
            assert(domain@ == lowercase(stem));
            assert(domain@.len() > 0 <==> stem.len() > 0);
        }
        if !domain.as_str().is_empty() {
            domains.push(domain);
            assert(texts(domains@) =~= before.push(domain@));
            assert(stems.take(i + 1).filter(named).map_values(lower) =~= before.push(domain@));
        }
        i = i + 1;
    }
    assert(stems.take(stems.len() as int) =~= stems);
    domains
}

/// Reads an optional list of domains; a missing list is an empty one.
fn parse_optional_list(input: Option<&str>) -> (domains: Vec<String>)
    ensures
        texts(domains@) == optional_list(optional_str(input)),
{
    match input {
        Some(list) => parse_domain_list(list),
        None => {
            let domains: Vec<String> = Vec::new();
            assert(texts(domains@) =~= Seq::empty());
            domains
        },
    }
}

/// The domains that an optional list names.
pub open spec fn optional_list(input: Option<Seq<char>>) -> Seq<Seq<char>> {
    match input {
        Some(list) => domain_list(list),
        None => Seq::empty(),
    }
}

/// Checks a URL against a list of domains, given the host that was read in it.
fn host_outcome(domains: &[String], url: &str, host: &UrlHost, refusal: &str) -> (outcome: Result<
    (),
    String,
>)
    ensures
        verdict(outcome) == url_verdict(texts(domains@), url@, host@, refusal@),
{
    if domains.is_empty() {
        return Ok(());
    }
    match host {
        UrlHost::Invalid => Err(concat2("Invalid URL: ", url)),
        UrlHost::Missing => Err(concat2("No hostname in URL: ", url)),
        UrlHost::Host(hostname) => {
            if DomainFilter::matches_domain_list(domains, hostname.as_str()) {
                Ok(())
            } else {
                Err(concat3("Domain '", hostname.as_str(), refusal))
            }
        },
    }
}

impl DomainFilter {
    /// A filter with the unified list alone.
    pub fn new(domains: &str) -> (filter: DomainFilter)
        ensures
            filter@ == (FilterView {
                navigation: Seq::empty(),
                resource: Seq::empty(),
                allowed: domain_list(domains@),
            }),
    {
        let filter = DomainFilter {
            navigation_domains: Vec::new(),
            resource_domains: Vec::new(),
            allowed_domains: parse_domain_list(domains),
        };
        assert(filter@.navigation =~= Seq::empty());
        assert(filter@.resource =~= Seq::empty());
        filter
    }

    /// A filter with lists of its own for navigation and for sub-resources.
    pub fn with_split(allowed: &str, navigation: Option<&str>, resource: Option<&str>) -> (filter:
        DomainFilter)
        ensures
            filter@ == (FilterView {
                navigation: optional_list(optional_str(navigation)),
                resource: optional_list(optional_str(resource)),
                allowed: domain_list(allowed@),
            }),
    {
        DomainFilter {
            allowed_domains: parse_domain_list(allowed),
            navigation_domains: parse_optional_list(navigation),
            resource_domains: parse_optional_list(resource),
        }
    }

    /// Whether any filtering is active at all.
    pub fn is_active(&self) -> (active: bool)
        ensures
            active == self@.active(),
    {
        !self.allowed_domains.is_empty() || !self.navigation_domains.is_empty()
            || !self.resource_domains.is_empty()
    }

    /// The effective domain list for navigation checks.
    pub(crate) fn effective_navigation_domains(&self) -> (domains: &[String])
        ensures
            texts(domains@) == self@.for_navigation(),
    {
        if !self.navigation_domains.is_empty() {
            self.navigation_domains.as_slice()
        } else {
            self.allowed_domains.as_slice()
        }
    }

    /// The effective domain list for resource checks.
    pub(crate) fn effective_resource_domains(&self) -> (domains: &[String])
        ensures
            texts(domains@) == self@.for_resources(),
    {
        if !self.resource_domains.is_empty() {
            self.resource_domains.as_slice()
        } else {
            self.allowed_domains.as_slice()
        }
    }

    /// Whether a list of domain patterns allows a hostname.
    pub fn matches_domain_list(domains: &[String], hostname: &str) -> (allowed: bool)
        ensures
            allowed == list_allows(texts(domains@), hostname@),
    {
        if domains.is_empty() {
            return true;
        }
        let lower = hostname.to_lowercase();
        let mut i: usize = 0;
        while i < domains.len()
            invariant
                lower@ == lowercase(hostname@),
                0 <= i <= domains@.len(),
                domains@.len() > 0,
                forall|j: int|
                    0 <= j < i ==> !domain_matches(
                        #[trigger] texts(domains@)[j],
                        lowercase(hostname@),
                    ),
            decreases domains@.len() - i,
        {
            assert(texts(domains@)[i as int] == domains@[i as int]@);
            if glob_match_domain(domains[i].as_str(), lower.as_str()) {
                return true;
            }
            i = i + 1;
        }
        false
    }

    /// Check if a hostname is allowed for agent-initiated navigation.
    pub fn is_navigation_allowed(&self, hostname: &str) -> (allowed: bool)
        ensures
            allowed == list_allows(self@.for_navigation(), hostname@),
    {
        Self::matches_domain_list(self.effective_navigation_domains(), hostname)
    }

    /// Check if a hostname is allowed for page-initiated sub-resource requests.
    pub fn is_resource_allowed(&self, hostname: &str) -> (allowed: bool)
        ensures
            allowed == list_allows(self@.for_resources(), hostname@),
    {
        Self::matches_domain_list(self.effective_resource_domains(), hostname)
    }

    /// Legacy: check if a hostname is allowed (uses `allowed_domains`).
    pub fn is_allowed(&self, hostname: &str) -> (allowed: bool)
        ensures
            allowed == list_allows(self@.allowed, hostname@),
    {
        Self::matches_domain_list(self.allowed_domains.as_slice(), hostname)
    }

    /// Checks a URL for navigation, given the host that was read in it.
    pub fn check_navigation_host(&self, url: &str, host: &UrlHost) -> (outcome: Result<(), String>)
        ensures
            verdict(outcome) == self@.navigation_verdict(url@, host@),
    {
        host_outcome(
            self.effective_navigation_domains(),
            url,
            host,
            "' is not in the allowed navigation domains list",
        )
    }

    /// Checks a URL against the unified list, given the host that was read in it.
    pub fn check_host(&self, url: &str, host: &UrlHost) -> (outcome: Result<(), String>)
        ensures
            verdict(outcome) == self@.unified_verdict(url@, host@),
    {
        host_outcome(
            self.allowed_domains.as_slice(),
            url,
            host,
            "' is not in the allowed domains list",
        )
    }

    /// Check a URL against the navigation domain filter.
    pub fn check_navigation_url(&self, url: &str) -> (outcome: Result<(), String>)
        ensures
            verdict(outcome) == self@.navigation_verdict(url@, url_host(url@)),
    {
        if self.effective_navigation_domains().is_empty() {
            return Ok(());
        }
        self.check_navigation_host(url, &UrlHost::of(url))
    }

    /// Legacy `check_url` (uses `allowed_domains`).
    pub fn check_url(&self, url: &str) -> (outcome: Result<(), String>)
        ensures
            verdict(outcome) == self@.unified_verdict(url@, url_host(url@)),
    {
        if self.allowed_domains.is_empty() {
            return Ok(());
        }
        self.check_host(url, &UrlHost::of(url))
    }
}

/// A filter without domains lets everything pass.
pub proof fn law_inactive_filter_allows_all(
    filter: FilterView,
    url: Seq<char>,
    host: Option<Option<Seq<char>>>,
    hostname: Seq<char>,
)
    requires
        !filter.active(),
    ensures
        list_allows(filter.for_navigation(), hostname),
        list_allows(filter.for_resources(), hostname),
        list_allows(filter.allowed, hostname),
        filter.navigation_verdict(url, host) == Ok::<(), Seq<char>>(()),
        filter.unified_verdict(url, host) == Ok::<(), Seq<char>>(()),
{
}

/// A list of its own takes precedence over the unified list, and where there is
/// none the unified list counts. Neither list of its own bears on the other check.
pub proof fn law_own_list_takes_precedence(filter: FilterView)
    ensures
        filter.navigation.len() > 0 ==> filter.for_navigation() == filter.navigation,
        filter.navigation.len() == 0 ==> filter.for_navigation() == filter.allowed,
        filter.resource.len() > 0 ==> filter.for_resources() == filter.resource,
        filter.resource.len() == 0 ==> filter.for_resources() == filter.allowed,
        forall|other: FilterView|
            other.navigation == filter.navigation && other.allowed == filter.allowed
                ==> #[trigger] other.for_navigation() == filter.for_navigation(),
        forall|other: FilterView|
            other.resource == filter.resource && other.allowed == filter.allowed
                ==> #[trigger] other.for_resources() == filter.for_resources(),
{
}

/// The case of an ASCII hostname does not matter.
pub proof fn law_case_does_not_matter(domains: Seq<Seq<char>>, hostname: Seq<char>)
    requires
        is_ascii_chars(hostname),
    ensures
        list_allows(domains, lowercase(hostname)) == list_allows(domains, hostname),
{
    law_ascii_lowercase(hostname);
}

/// A domain added to a list takes nothing away from it, but for the empty list,
/// which allows everything.
pub proof fn law_more_domains_allow_more(
    domains: Seq<Seq<char>>,
    more: Seq<Seq<char>>,
    hostname: Seq<char>,
)
    requires
        domains.len() > 0,
        list_allows(domains, hostname),
    ensures
        list_allows(domains + more, hostname),
        list_allows(more + domains, hostname),
{
    let i = choose|i: int|
        0 <= i < domains.len() && domain_matches(#[trigger] domains[i], lowercase(hostname));
    assert((domains + more)[i] == domains[i]);
    assert((more + domains)[more.len() + i] == domains[i]);
}

/// A URL check passes exactly where no list is in force or the host that was read
/// in the URL is allowed.
pub proof fn law_url_check_asks_the_host(
    filter: FilterView,
    url: Seq<char>,
    host: Option<Option<Seq<char>>>,
)
    ensures
        filter.navigation_verdict(url, host) is Ok <==> filter.for_navigation().len() == 0 || (
        host matches Some(Some(hostname)) && list_allows(filter.for_navigation(), hostname)),
        filter.unified_verdict(url, host) is Ok <==> filter.allowed.len() == 0 || (host matches Some(
            Some(hostname),
        ) && list_allows(filter.allowed, hostname)),
{
}

/// A list of nothing but commas and white space names no domain.
pub proof fn law_blank_list_names_nothing(input: Seq<char>)
    requires
        forall|i: int| 0 <= i < input.len() ==> #[trigger] input[i] == ',' || is_white_space(input[i]),
    ensures
        domain_list(input).len() == 0,
{
    lemma_blank_pieces(input);
    if domain_list(input).len() > 0 {
        let k = lemma_stem(input, 0);
        let piece = pieces(input, ',')[k];
        let (from, to) = lemma_trimmed(piece);
        assert(trimmed(piece)[0] == piece[from]);
    }
}

/// The pieces of a blank list are white space.
proof fn lemma_blank_pieces(s: Seq<char>)
    requires
        forall|i: int| 0 <= i < s.len() ==> #[trigger] s[i] == ',' || is_white_space(s[i]),
    ensures
        forall|i: int, j: int|
            0 <= i < pieces(s, ',').len() && 0 <= j < pieces(s, ',')[i].len() ==> is_white_space(
                #[trigger] pieces(s, ',')[i][j],
            ),
    decreases s.len(),
{
    if s.len() > 0 {
        let before = pieces(s.drop_last(), ',');
        lemma_blank_pieces(s.drop_last());
        lemma_pieces_joined(s.drop_last(), ',');
        assert(s[s.len() - 1] == ',' || is_white_space(s[s.len() - 1]));
        assert forall|i: int, j: int|
            0 <= i < pieces(s, ',').len() && 0 <= j < pieces(s, ',')[i].len() implies is_white_space(
            #[trigger] pieces(s, ',')[i][j],
        ) by {
            if i < before.len() && j < before[i].len() {
                assert(pieces(s, ',')[i][j] == before[i][j]);
            }
        }
    }
}

/// What is left of a list once it is trimmed comes from a piece of it, and is not
/// empty.
proof fn lemma_stem(input: Seq<char>, i: int) -> (k: int)
    requires
        0 <= i < list_stems(input).len(),
    ensures
        0 <= k < pieces(input, ',').len(),
        list_stems(input)[i] == trimmed(pieces(input, ',')[k]),
        list_stems(input)[i].len() > 0,
{
    let all = pieces(input, ',').map_values(|piece: Seq<char>| trimmed(piece));
    let named = |stem: Seq<char>| stem.len() > 0;
    let stem = list_stems(input)[i];
    all.lemma_filter_pred(named, i);
    assert(all.filter(named).contains(stem));
    all.lemma_filter_contains_rev(named, stem);
    all.index_of(stem)
}

/// Whether a text is an entry in normal form: it is not empty, in lower case,
/// without white space at its ends and without commas.
pub open spec fn is_normal(entry: Seq<char>) -> bool {
    &&& entry.len() > 0
    &&& lowercase(entry) == entry
    &&& trimmed(entry) == entry
    &&& !entry.contains(',')
}

/// Every entry of a parsed list is the lower case of a piece of it that is more than
/// white space. An entry whose piece is ASCII, but for the white space around it, is
/// ASCII and in normal form.
pub proof fn law_entries_are_normal(input: Seq<char>, i: int) -> (k: int)
    requires
        0 <= i < domain_list(input).len(),
    ensures
        0 <= k < pieces(input, ',').len(),
        trimmed(pieces(input, ',')[k]).len() > 0,
        domain_list(input)[i] == lowercase(trimmed(pieces(input, ',')[k])),
        is_ascii_chars(trimmed(pieces(input, ',')[k])) ==> is_ascii_chars(domain_list(input)[i])
            && is_normal(domain_list(input)[i]),
{
    let k = lemma_stem(input, i);
    let piece = pieces(input, ',')[k];
    let stem = trimmed(piece);
    let entry = domain_list(input)[i];
    if is_ascii_chars(stem) {
        lemma_pieces_joined(input, ',');
        assert(!piece.contains(','));
        let (from, to) = lemma_trimmed(piece);
        law_ascii_lowercase(stem);
        assert(entry[0] == ascii_lower(stem[0]));
        assert(entry[entry.len() - 1] == ascii_lower(stem[stem.len() - 1]));
        lemma_trimmed_already(entry);
        if entry.contains(',') {
            let j = entry.index_of(',');
            assert(entry[j] == ascii_lower(stem[j]));
            assert(piece[from + j] == ',');
        }
    }
    k
}

/// A list of entries in normal form, written out with commas, reads as itself.
pub proof fn law_normal_list_reads_as_itself(list: Seq<Seq<char>>)
    requires
        forall|i: int| 0 <= i < list.len() ==> is_normal(#[trigger] list[i]),
    ensures
        domain_list(joined(list, seq![','])) == list,
{
    let written = joined(list, seq![',']);
    let trim = |piece: Seq<char>| trimmed(piece);
    let named = |stem: Seq<char>| stem.len() > 0;
    let lower = |stem: Seq<char>| lowercase(stem);
    if list.len() == 0 {
        law_blank_list_names_nothing(written);
        assert(domain_list(written) =~= list);
    } else {
        assert forall|i: int| 0 <= i < list.len() implies !(#[trigger] list[i]).contains(
            ',',
        ) by {
            assert(is_normal(list[i]));
        }
        law_joined_pieces(list, ',');
        assert forall|i: int| 0 <= i < list.len() implies trimmed(#[trigger] list[i]) == list[i]
            && lowercase(list[i]) == list[i] by {
            assert(is_normal(list[i]));
        }
        assert(list.map_values(trim) =~= list);
        assert(list.map_values(lower) =~= list);
        assert forall|i: int| 0 <= i < list.len() implies named(#[trigger] list[i]) by {
            assert(is_normal(list[i]));
        }
        lemma_filter_all(list, named);
    }
}

/// A parsed list whose pieces are ASCII, but for the white space around them, reads
/// as itself when it is written out with commas.
pub proof fn law_parsed_list_reads_as_itself(input: Seq<char>)
    requires
        forall|k: int|
            0 <= k < pieces(input, ',').len() ==> is_ascii_chars(
                trimmed(#[trigger] pieces(input, ',')[k]),
            ),
    ensures
        domain_list(joined(domain_list(input), seq![','])) == domain_list(input),
{
    let list = domain_list(input);
    assert forall|i: int| 0 <= i < list.len() implies is_normal(#[trigger] list[i]) by {
        let k = law_entries_are_normal(input, i);
        assert(is_ascii_chars(trimmed(pieces(input, ',')[k])));
    }
    law_normal_list_reads_as_itself(list);
}

/// Two lists with a comma between them name what the first names and then what the
/// second names, each in its order.
pub proof fn law_lists_in_a_row(a: Seq<char>, b: Seq<char>)
    ensures
        domain_list(a + seq![','] + b) == domain_list(a) + domain_list(b),
{
    let trim = |piece: Seq<char>| trimmed(piece);
    let named = |stem: Seq<char>| stem.len() > 0;
    law_pieces_in_a_row(a, b, ',');
    let left = pieces(a, ',').map_values(trim);
    let right = pieces(b, ',').map_values(trim);
    assert((pieces(a, ',') + pieces(b, ',')).map_values(trim) =~= left + right);
    Seq::filter_distributes_over_add(left, right, named);
    assert(domain_list(a + seq![','] + b) =~= domain_list(a) + domain_list(b));
}

/// A list without a comma names one domain, which is what is left of it when it is
/// trimmed and put in lower case. White space alone names nothing.
pub proof fn law_list_without_comma(s: Seq<char>)
    requires
        !s.contains(','),
    ensures
        domain_list(s) == (if trimmed(s).len() == 0 {
            Seq::<Seq<char>>::empty()
        } else {
            seq![lowercase(trimmed(s))]
        }),
{
    let named = |stem: Seq<char>| stem.len() > 0;
    law_single_piece(s, ',');
    let one = seq![trimmed(s)];
    assert(seq![s].map_values(|piece: Seq<char>| trimmed(piece)) =~= one);
    reveal_with_fuel(Seq::filter, 2);
    assert(one.drop_last() =~= Seq::empty());
    assert(one.drop_last().filter(named) =~= Seq::empty());
    assert(list_stems(s) == one.filter(named));
    if trimmed(s).len() == 0 {
        assert(one.filter(named) =~= Seq::empty());
        assert(domain_list(s) =~= Seq::empty());
    } else {
        assert(one.filter(named) =~= one);
        assert(domain_list(s) =~= seq![lowercase(trimmed(s))]);
    }
}

/// Filtering a list of which everything passes leaves it as it is.
proof fn lemma_filter_all(list: Seq<Seq<char>>, keep: spec_fn(Seq<char>) -> bool)
    requires
        forall|i: int| 0 <= i < list.len() ==> keep(#[trigger] list[i]),
    ensures
        list.filter(keep) == list,
    decreases list.len(),
{
    reveal(Seq::filter);
    if list.len() > 0 {
        assert(keep(list[list.len() - 1]));
        let before = list.drop_last();
        assert forall|i: int| 0 <= i < before.len() implies keep(#[trigger] before[i]) by {
            assert(before[i] == list[i]);
        }
        lemma_filter_all(before, keep);
        assert(before.push(list.last()) =~= list);
    } else {
        assert(list.filter(keep) =~= list);
    }
}

/// An empty list allows every hostname. A list with a single pattern allows the
/// hostnames that the pattern covers, in lower case, and no other.
pub proof fn law_list_of_one_pattern(pattern: Seq<char>, hostname: Seq<char>)
    ensures
        list_allows(Seq::empty(), hostname),
        list_allows(seq![pattern], hostname) == domain_matches(pattern, lowercase(hostname)),
{
    let one = seq![pattern];
    assert(one[0] == pattern);
}

/// Two lists in a row allow what one of them allows, and nothing else.
pub proof fn law_lists_allow_together(
    a: Seq<Seq<char>>,
    b: Seq<Seq<char>>,
    hostname: Seq<char>,
)
    requires
        a.len() > 0,
        b.len() > 0,
    ensures
        list_allows(a + b, hostname) == (list_allows(a, hostname) || list_allows(b, hostname)),
{
    let h = lowercase(hostname);
    if list_allows(a + b, hostname) {
        let i = choose|i: int| 0 <= i < (a + b).len() && domain_matches(#[trigger] (a + b)[i], h);
        if i < a.len() {
            assert(a[i] == (a + b)[i]);
        } else {
            assert(b[i - a.len()] == (a + b)[i]);
        }
    }
    if list_allows(a, hostname) {
        law_more_domains_allow_more(a, b, hostname);
    }
    if list_allows(b, hostname) {
        law_more_domains_allow_more(b, a, hostname);
    }
}

/// A list that names something allows a hostname only if one of its patterns alone
/// allows it.
pub proof fn law_some_pattern_allows(domains: Seq<Seq<char>>, hostname: Seq<char>)
    requires
        domains.len() > 0,
    ensures
        list_allows(domains, hostname) <==> exists|i: int|
            0 <= i < domains.len() && list_allows(seq![#[trigger] domains[i]], hostname),
{
    let h = lowercase(hostname);
    assert forall|i: int| 0 <= i < domains.len() implies list_allows(
        seq![#[trigger] domains[i]],
        hostname,
    ) == domain_matches(domains[i], h) by {
        law_list_of_one_pattern(domains[i], hostname);
    }
}

/// A list of one literal domain allows that domain and nothing else.
pub proof fn law_list_of_one_domain(domain: Seq<char>, hostname: Seq<char>)
    requires
        !domain.contains('*'),
    ensures
        list_allows(seq![domain], hostname) <==> lowercase(hostname) == domain,
{
    law_list_of_one_pattern(domain, hostname);
    law_literal_pattern(domain, lowercase(hostname));
}

/// A list of one wildcard label allows the domain behind it and what ends with a dot
/// and that domain, and nothing else.
pub proof fn law_list_of_one_wildcard_label(domain: Seq<char>, hostname: Seq<char>)
    requires
        !domain.contains('*'),
    ensures
        list_allows(seq![seq!['*', '.'] + domain], hostname) <==> lowercase(hostname) == domain || (
        exists|host: Seq<char>| lowercase(hostname) == #[trigger] (host + (seq!['.'] + domain))),
{
    law_list_of_one_pattern(seq!['*', '.'] + domain, hostname);
    law_wildcard_label(domain, lowercase(hostname));
    law_beginnings_and_ends(lowercase(hostname), seq!['.'] + domain);
}

/// A filter is active as soon as one list names a domain. One that is not active
/// refuses nothing, so one that refuses something is active.
pub proof fn law_active_filter_has_a_list(filter: FilterView)
    ensures
        filter.allowed.len() > 0 ==> filter.active(),
        filter.navigation.len() > 0 ==> filter.active(),
        filter.resource.len() > 0 ==> filter.active(),
        filter.active() ==> filter.for_navigation().len() > 0 || filter.for_resources().len() > 0,
        filter.for_navigation().len() > 0 || filter.for_resources().len() > 0 ==> filter.active(),
{
}

/// A refusal says why: the URL is none, has no host, or has a host that is not on the
/// list, in which case the host is named.
pub proof fn law_refusals_say_why(filter: FilterView, url: Seq<char>, hostname: Seq<char>)
    ensures
        filter.for_navigation().len() > 0 ==> {
            &&& filter.navigation_verdict(url, None) == Err::<(), Seq<char>>("Invalid URL: "@ + url)
            &&& filter.navigation_verdict(url, Some(None)) == Err::<(), Seq<char>>(
                "No hostname in URL: "@ + url,
            )
            &&& !list_allows(filter.for_navigation(), hostname) ==> filter.navigation_verdict(
                url,
                Some(Some(hostname)),
            ) == Err::<(), Seq<char>>(
                "Domain '"@ + hostname + "' is not in the allowed navigation domains list"@,
            )
        },
        filter.allowed.len() > 0 ==> {
            &&& filter.unified_verdict(url, None) == Err::<(), Seq<char>>("Invalid URL: "@ + url)
            &&& filter.unified_verdict(url, Some(None)) == Err::<(), Seq<char>>(
                "No hostname in URL: "@ + url,
            )
            &&& !list_allows(filter.allowed, hostname) ==> filter.unified_verdict(
                url,
                Some(Some(hostname)),
            ) == Err::<(), Seq<char>>("Domain '"@ + hostname + "' is not in the allowed domains list"@)
        },
{
}

/// The check of a URL for navigation depends on the URL through its host alone, but
/// for the URL that a refusal quotes, and on no list that is not in force.
pub proof fn law_url_check_depends_on_the_host(
    filter: FilterView,
    other: FilterView,
    url: Seq<char>,
    other_url: Seq<char>,
    host: Option<Option<Seq<char>>>,
)
    requires
        filter.for_navigation() == other.for_navigation(),
    ensures
        filter.navigation_verdict(url, host) == other.navigation_verdict(url, host),
        filter.navigation_verdict(url, host) is Ok == filter.navigation_verdict(other_url, host) is Ok,
        host matches Some(Some(_)) ==> filter.navigation_verdict(url, host)
            == filter.navigation_verdict(other_url, host),
{
}

/// A verdict passes where the outcome does, and has the message of the outcome where
/// it does not.
pub proof fn law_verdict_is_the_outcome(outcome: Result<(), String>)
    ensures
        verdict(outcome) is Ok <==> outcome is Ok,
        outcome matches Err(message) ==> verdict(outcome) == Err::<(), Seq<char>>(message@),
{
}

/// A filter has the patterns that its lists hold, each list by itself.
pub proof fn law_filter_has_its_lists(filter: DomainFilter)
    ensures
        filter@.navigation.len() == filter.navigation_domains@.len(),
        filter@.resource.len() == filter.resource_domains@.len(),
        filter@.allowed.len() == filter.allowed_domains@.len(),
        forall|i: int|
            0 <= i < filter.navigation_domains@.len() ==> filter@.navigation[i]
                == (#[trigger] filter.navigation_domains@[i])@,
        forall|i: int|
            0 <= i < filter.resource_domains@.len() ==> filter@.resource[i]
                == (#[trigger] filter.resource_domains@[i])@,
        forall|i: int|
            0 <= i < filter.allowed_domains@.len() ==> filter@.allowed[i]
                == (#[trigger] filter.allowed_domains@[i])@,
{
}

/// A list that is missing names nothing, and one that is given names what it says.
pub proof fn law_missing_list_names_nothing(input: Seq<char>)
    ensures
        optional_list(None).len() == 0,
        optional_list(Some(input)) == domain_list(input),
{
}

} // verus!
