//! The navigation ceiling: the most that configuration can allow.

use crate::domains::{domain_list, law_entries_are_normal, list_allows, DomainFilter};
use crate::glob::{
    begins_with, domain_matches, ends_with, glob, has_wildcard_label, law_beginnings_and_ends,
    law_inner_wildcard, law_inner_wildcard_covers, law_literal_pattern, law_wildcard_label,
    lemma_glob_literal_start,
};
use crate::text::{
    ascii_lower, concat3, joined, law_ascii_lowercase, lemma_pieces_joined, lowercase, pieces, texts,
    trimmed,
};
use vstd::prelude::*;
use vstd::utf8::is_ascii_chars;

verus! {

/// The navigation domains that configuration may allow at most.
pub open spec fn ceiling() -> Seq<Seq<char>> {
    seq![
        "leonardo.ai"@,
        "*.leonardo.ai"@,
        "leonardo-platform-*.vercel.app"@,
        "localhost"@,
    ]
}

/// A hostname that stands for those an entry covers: every `*` becomes a label
/// that no ceiling pattern spells out.
pub open spec fn representative(entry: Seq<char>) -> Seq<char>
    decreases entry.len(),
{
    if entry.len() == 0 {
        Seq::empty()
    } else if entry.last() == '*' {
        representative(entry.drop_last()) + "__ceil_test__"@
    } else {
        representative(entry.drop_last()).push(entry.last())
    }
}

/// Whether configuration may allow an entry.
pub open spec fn within_ceiling(entry: Seq<char>) -> bool {
    list_allows(ceiling(), representative(entry))
}

/// The warning about an entry that is left out.
pub open spec fn ceiling_warning(entry: Seq<char>) -> Seq<char> {
    "[agent-browser] domain \""@ + entry + "\" not in approved ceiling, ignored"@
}

/// Maximum allowed navigation domains. Configured entries that no ceiling pattern
/// matches are rejected.
pub fn navigation_domain_ceiling() -> (patterns: Vec<String>)
    ensures
        texts(patterns@) == ceiling(),
{
    let mut patterns: Vec<String> = Vec::new();
    patterns.push("leonardo.ai".to_string());
    patterns.push("*.leonardo.ai".to_string());
    patterns.push("leonardo-platform-*.vercel.app".to_string());
    patterns.push("localhost".to_string());
    assert(texts(patterns@) =~= ceiling());
    patterns
}

/// Replaces every `*` of an entry with a test label.
fn representative_of(entry: &str) -> (hostname: String)
    ensures
        hostname@ == representative(entry@),
{
    let mut hostname = String::new();
    assert(hostname@ =~= representative(entry@.take(0)));
    for c in it: entry.chars()
        invariant
            it.seq() == entry@,
            hostname@ == representative(entry@.take(it.index())),
    {
        assert(entry@.take(it.index() + 1).drop_last() =~= entry@.take(it.index()));
        if c == '*' {
            hostname.append("__ceil_test__");
        } else {
            hostname.push(c);
        }
    }
    assert(entry@.take(entry@.len() as int) =~= entry@);
    hostname
}

/// Whether an entry matches a ceiling pattern. For an entry with wildcards that is
/// asked of its representative.
fn allowed_by(patterns: &Vec<String>, entry: &str) -> (allowed: bool)
    requires
        texts(patterns@) == ceiling(),
    ensures
        allowed == within_ceiling(entry@),
{
    DomainFilter::matches_domain_list(patterns.as_slice(), representative_of(entry).as_str())
}

/// Filters navigation domains against the ceiling: keeps the entries that match at
/// least one ceiling pattern.
pub fn filter_by_ceiling(domains: Vec<String>) -> (kept: Vec<String>)
    ensures
        kept@ == domains@.filter(|domain: String| within_ceiling(domain@)),
{
    let patterns = navigation_domain_ceiling();
    let ghost keep = |domain: String| within_ceiling(domain@);
    let mut kept: Vec<String> = Vec::new();
    let mut i: usize = 0;
    assert(kept@ =~= domains@.take(0).filter(keep)) by {
        reveal(Seq::filter);
    }
    while i < domains.len()
        invariant
            texts(patterns@) == ceiling(),
            keep == (|domain: String| within_ceiling(domain@)),
            i <= domains@.len(),
            kept@ == domains@.take(i as int).filter(keep),
        decreases domains@.len() - i,
    {
        proof {
            reveal(Seq::filter);
            assert(domains@.take(i + 1).drop_last() =~= domains@.take(i as int));
        }
        if allowed_by(&patterns, domains[i].as_str()) {
            kept.push(domains[i].clone());
        }
        i = i + 1;
    }
    assert(domains@.take(domains@.len() as int) =~= domains@);
    kept
}

/// The warnings about the entries that [`filter_by_ceiling`] leaves out, in order.
pub fn ceiling_warnings(domains: &[String]) -> (warnings: Vec<String>)
    ensures
        texts(warnings@) == domains@.filter(
            |domain: String| !within_ceiling(domain@),
        ).map_values(|domain: String| ceiling_warning(domain@)),
{
    let patterns = navigation_domain_ceiling();
    let ghost drop = |domain: String| !within_ceiling(domain@);
    let ghost say = |domain: String| ceiling_warning(domain@);
    let mut warnings: Vec<String> = Vec::new();
    let mut i: usize = 0;
    assert(texts(warnings@) =~= domains@.take(0).filter(drop).map_values(say)) by {
        reveal(Seq::filter);
    }
    while i < domains.len()
        invariant
            texts(patterns@) == ceiling(),
            drop == (|domain: String| !within_ceiling(domain@)),
            say == (|domain: String| ceiling_warning(domain@)),
            i <= domains@.len(),
            texts(warnings@) == domains@.take(i as int).filter(drop).map_values(say),
        decreases domains@.len() - i,
    {
        let ghost before = texts(warnings@);
        proof {
            reveal(Seq::filter);
            assert(domains@.take(i + 1).drop_last() =~= domains@.take(i as int));
        }
        if !allowed_by(&patterns, domains[i].as_str()) {
            let warning = concat3(
                "[agent-browser] domain \"",
                domains[i].as_str(),
                "\" not in approved ceiling, ignored",
            );
            warnings.push(warning);
            assert(texts(warnings@) =~= before.push(ceiling_warning(domains@[i as int]@)));
            assert(domains@.take(i + 1).filter(drop).map_values(say) =~= before.push(
                ceiling_warning(domains@[i as int]@),
            ));
        }
        i = i + 1;
    }
    assert(domains@.take(domains@.len() as int) =~= domains@);
    warnings
}

/// The representative of two texts in a row is that of the first and then that of
/// the second.
proof fn lemma_representative_concat(a: Seq<char>, b: Seq<char>)
    ensures
        representative(a + b) == representative(a) + representative(b),
    decreases b.len(),
{
    if b.len() == 0 {
        assert(a + b =~= a);
        assert(representative(a) + representative(b) =~= representative(a));
    } else {
        assert((a + b).drop_last() =~= a + b.drop_last());
        lemma_representative_concat(a, b.drop_last());
        assert(representative(a + b) =~= representative(a) + representative(b));
    }
}

/// A representative is no shorter than its entry.
proof fn lemma_representative_length(entry: Seq<char>)
    ensures
        representative(entry).len() >= entry.len(),
    decreases entry.len(),
{
    reveal_strlit("__ceil_test__");
    if entry.len() > 0 {
        lemma_representative_length(entry.drop_last());
    }
}

/// An end of a representative that holds nothing of the test label stands, as it
/// is, at the end of the entry.
proof fn lemma_representative_end(entry: Seq<char>, end: Seq<char>)
    requires
        ends_with(representative(entry), end),
        !end.contains('_'),
    ensures
        ends_with(entry, end),
        !end.contains('*'),
    decreases end.len(),
{
    let whole = representative(entry);
    if end.len() == 0 {
        assert(entry.skip(entry.len() as int) =~= end);
    } else {
        reveal_strlit("__ceil_test__");
        assert(end.contains(end.last()));
        assert(whole.skip(whole.len() - end.len())[end.len() - 1] == whole.last());
        assert(entry.last() != '*');
        let shorter = representative(entry.drop_last());
        assert(whole.drop_last() =~= shorter);
        assert(shorter.skip(shorter.len() - (end.len() - 1)) =~= end.drop_last()) by {
            assert forall|i: int| 0 <= i < end.len() - 1 implies #[trigger] shorter.skip(
                shorter.len() - (end.len() - 1),
            )[i] == end[i] by {
                assert(whole.skip(whole.len() - end.len())[i] == end[i]);
            }
        }
        assert(!end.drop_last().contains('_')) by {
            if end.drop_last().contains('_') {
                let i = end.drop_last().index_of('_');
                assert(end[i] == '_');
            }
        }
        lemma_representative_end(entry.drop_last(), end.drop_last());
        assert(entry.skip(entry.len() - end.len()) =~= end) by {
            let tail = entry.skip(entry.len() - end.len());
            let less = entry.drop_last();
            assert forall|i: int| 0 <= i < end.len() implies #[trigger] tail[i] == end[i] by {
                if i < end.len() - 1 {
                    assert(less.skip(less.len() - (end.len() - 1))[i] == end.drop_last()[i]);
                }
            }
        }
        assert(!end.contains('*')) by {
            if end.contains('*') {
                let i = end.index_of('*');
                if i < end.len() - 1 {
                    assert(end.drop_last()[i] == '*');
                }
            }
        }
    }
}

/// A start of a representative that holds nothing of the test label stands, as it
/// is, at the start of the entry.
proof fn lemma_representative_start(entry: Seq<char>, start: Seq<char>)
    requires
        begins_with(representative(entry), start),
        !start.contains('_'),
    ensures
        begins_with(entry, start),
        !start.contains('*'),
        representative(entry.skip(start.len() as int)) == representative(entry).skip(
            start.len() as int,
        ),
    decreases start.len(),
{
    let whole = representative(entry);
    if start.len() == 0 {
        assert(entry.take(0) =~= start);
        assert(entry.skip(0) =~= entry);
        assert(whole.skip(0) =~= whole);
    } else {
        reveal_strlit("__ceil_test__");
        assert(entry.len() > 0);
        let head = seq![entry.first()];
        let rest = entry.drop_first();
        assert(entry =~= head + rest);
        lemma_representative_concat(head, rest);
        reveal_with_fuel(representative, 2);
        assert(start.contains(start[0]));
        assert(whole.take(start.len() as int)[0] == whole[0]);
        assert(entry.first() != '*');
        assert(representative(head) =~= head);
        assert(representative(rest) =~= whole.drop_first());
        let fewer = start.drop_first();
        assert(whole.drop_first().take(fewer.len() as int) =~= fewer) by {
            assert forall|i: int| 0 <= i < fewer.len() implies #[trigger] whole.drop_first()[i]
                == fewer[i] by {
                assert(whole.take(start.len() as int)[i + 1] == start[i + 1]);
            }
        }
        assert(!fewer.contains('_')) by {
            if fewer.contains('_') {
                let i = fewer.index_of('_');
                assert(start[i + 1] == '_');
            }
        }
        lemma_representative_start(rest, fewer);
        assert(entry.take(start.len() as int) =~= start) by {
            assert forall|i: int| 0 < i < start.len() implies #[trigger] entry[i] == start[i] by {
                assert(rest.take(fewer.len() as int)[i - 1] == fewer[i - 1]);
            }
        }
        assert(rest.skip(fewer.len() as int) =~= entry.skip(start.len() as int));
        assert(whole.drop_first().skip(fewer.len() as int) =~= whole.skip(start.len() as int));
        assert(!start.contains('*')) by {
            if start.contains('*') {
                let i = start.index_of('*');
                if i > 0 {
                    assert(fewer[i - 1] == '*');
                }
            }
        }
    }
}

/// An entry whose representative holds nothing of the test label is its own
/// representative.
proof fn lemma_representative_itself(entry: Seq<char>, literal: Seq<char>)
    requires
        representative(entry) == literal,
        !literal.contains('_'),
    ensures
        entry == literal,
        !literal.contains('*'),
{
    assert(literal.skip(0) =~= literal);
    lemma_representative_end(entry, literal);
    lemma_representative_length(entry);
    assert(entry.skip(0) =~= entry);
}

/// A literal end of a pattern stands at the end of every text that matches.
proof fn lemma_glob_literal_end(pattern: Seq<char>, end: Seq<char>, subject: Seq<char>)
    requires
        glob(pattern, subject),
        ends_with(pattern, end),
        !end.contains('*'),
    ensures
        ends_with(subject, end),
    decreases pattern.len(),
{
    if pattern.len() == end.len() {
        assert(pattern.skip(0) =~= pattern);
        law_literal_pattern(pattern, subject);
        assert(subject.skip(0) =~= subject);
    } else {
        let rest = pattern.drop_first();
        assert(rest.skip(rest.len() - end.len()) =~= pattern.skip(pattern.len() - end.len()));
        if pattern.first() == '*' {
            let k = choose|k: int|
                0 <= k <= subject.len() && glob(rest, #[trigger] subject.skip(k));
            lemma_glob_literal_end(rest, end, subject.skip(k));
            let later = subject.skip(k);
            assert(later.skip(later.len() - end.len()) =~= subject.skip(
                subject.len() - end.len(),
            ));
        } else {
            lemma_glob_literal_end(rest, end, subject.drop_first());
            let later = subject.drop_first();
            assert(later.skip(later.len() - end.len()) =~= subject.skip(
                subject.len() - end.len(),
            ));
        }
    }
}

/// Every character of a pattern but `*` occurs in each text that matches.
proof fn lemma_glob_characters(pattern: Seq<char>, subject: Seq<char>, i: int)
    requires
        glob(pattern, subject),
        0 <= i < pattern.len(),
        pattern[i] != '*',
    ensures
        subject.contains(pattern[i]),
    decreases pattern.len(),
{
    if pattern.first() == '*' {
        let k = choose|k: int|
            0 <= k <= subject.len() && glob(pattern.drop_first(), #[trigger] subject.skip(k));
        lemma_glob_characters(pattern.drop_first(), subject.skip(k), i - 1);
        let j = subject.skip(k).index_of(pattern[i]);
        assert(subject[k + j] == pattern[i]);
    } else if i > 0 {
        lemma_glob_characters(pattern.drop_first(), subject.drop_first(), i - 1);
        let j = subject.drop_first().index_of(pattern[i]);
        assert(subject[j + 1] == pattern[i]);
    } else {
        assert(subject[0] == pattern[0]);
    }
}

/// Whatever an entry in lower case covers, the ceiling covers if it lets the entry
/// pass.
proof fn lemma_ceiling_covers(entry: Seq<char>, h: Seq<char>)
    requires
        lowercase(representative(entry)) == representative(entry),
        within_ceiling(entry),
        domain_matches(entry, h),
    ensures
        exists|i: int| 0 <= i < ceiling().len() && domain_matches(#[trigger] ceiling()[i], h),
{
    reveal_strlit("leonardo.ai");
    reveal_strlit("*.leonardo.ai");
    reveal_strlit("leonardo-platform-*.vercel.app");
    reveal_strlit("localhost");
    let rep = representative(entry);
    let i = choose|i: int|
        0 <= i < ceiling().len() && domain_matches(#[trigger] ceiling()[i], rep);
    let apex = "leonardo.ai"@;
    if i == 0 {
        law_literal_pattern(apex, rep);
        lemma_representative_itself(entry, apex);
        assert(domain_matches(ceiling()[0], h));
    } else if i == 1 {
        let dotted = seq!['.'] + apex;
        assert(ceiling()[1] =~= seq!['*', '.'] + apex);
        law_wildcard_label(apex, rep);
        law_wildcard_label(apex, h);
        if rep == apex {
            lemma_representative_itself(entry, apex);
            law_literal_pattern(apex, h);
        } else {
            lemma_representative_end(entry, dotted);
            if glob(entry, h) {
                lemma_glob_literal_end(entry, dotted, h);
            } else {
                let rest = entry.skip(2);
                assert(entry.skip(entry.len() - dotted.len())[0] == '.');
                assert(entry.len() > dotted.len());
                if entry.len() == dotted.len() + 1 {
                    assert(rest =~= apex) by {
                        assert forall|j: int| 0 <= j < apex.len() implies #[trigger] rest[j]
                            == apex[j] by {
                            assert(entry.skip(entry.len() - dotted.len())[j + 1] == dotted[j + 1]);
                        }
                    }
                    law_literal_pattern(apex, h);
                } else {
                    assert(rest.skip(rest.len() - dotted.len()) =~= entry.skip(
                        entry.len() - dotted.len(),
                    ));
                    lemma_glob_literal_end(rest, dotted, h);
                }
            }
        }
        assert(domain_matches(ceiling()[1], h));
    } else if i == 2 {
        reveal_strlit("leonardo-platform-");
        reveal_strlit(".vercel.app");
        let prefix = "leonardo-platform-"@;
        let suffix = ".vercel.app"@;
        assert(ceiling()[2] =~= prefix + seq!['*'] + suffix);
        law_inner_wildcard(prefix, suffix, rep);
        law_inner_wildcard(prefix, suffix, h);
        lemma_representative_start(entry, prefix);
        let rest = entry.skip(prefix.len() as int);
        lemma_representative_end(rest, suffix);
        assert(entry.take(prefix.len() as int)[0] == 'l');
        assert(!has_wildcard_label(entry));
        assert(entry =~= prefix + rest);
        lemma_glob_literal_start(prefix, rest, h);
        lemma_glob_literal_end(rest, suffix, h.skip(prefix.len() as int));
        assert(domain_matches(ceiling()[2], h));
    } else {
        law_literal_pattern("localhost"@, rep);
        lemma_representative_itself(entry, "localhost"@);
        assert(domain_matches(ceiling()[3], h));
    }
}

/// An entry that covers a hostname in ASCII lower case is ASCII and in lower case
/// itself.
proof fn lemma_covering_entry(entry: Seq<char>, h: Seq<char>)
    requires
        domain_matches(entry, h),
        forall|i: int|
            0 <= i < h.len() ==> '\0' <= #[trigger] h[i] <= '\u{7f}' && !('A' <= h[i] <= 'Z'),
    ensures
        is_ascii_chars(entry),
        lowercase(entry) == entry,
{
    assert forall|i: int| 0 <= i < entry.len() implies '\0' <= #[trigger] entry[i] <= '\u{7f}' && !(
    'A' <= entry[i] <= 'Z') by {
        if entry[i] != '*' {
            if glob(entry, h) {
                lemma_glob_characters(entry, h, i);
                let n = h.index_of(entry[i]);
                assert(h[n] == entry[i]);
            } else if i >= 2 {
                lemma_glob_characters(entry.skip(2), h, i - 2);
                let n = h.index_of(entry[i]);
                assert(h[n] == entry[i]);
            }
        }
    }
    assert(lowercase(entry) =~= entry);
}

/// The representative of an ASCII entry in lower case is in lower case.
proof fn lemma_lower_representative(entry: Seq<char>)
    requires
        is_ascii_chars(entry),
        lowercase(entry) == entry,
    ensures
        lowercase(representative(entry)) == representative(entry),
{
    let rep = representative(entry);
    lemma_ascii_representative(entry);
    assert forall|j: int| 0 <= j < rep.len() implies #[trigger] lowercase(rep)[j] == rep[j] by {
        if 'A' <= rep[j] <= 'Z' {
            lemma_representative_letters(entry, j);
            let n = entry.index_of(rep[j]);
            assert(lowercase(entry)[n] == ascii_lower(entry[n]));
        }
    }
    assert(lowercase(rep) =~= rep);
}

/// The ceiling bounds what configuration can allow: every hostname that an entry
/// of the configuration covers is one that the ceiling allows, if the ceiling lets
/// the entry pass. The hostname is ASCII, or the representative of the entry is in
/// lower case.
pub proof fn law_ceiling_bounds_entry(entry: Seq<char>, hostname: Seq<char>)
    requires
        is_ascii_chars(hostname) || lowercase(representative(entry)) == representative(entry),
        within_ceiling(entry),
        domain_matches(entry, lowercase(hostname)),
    ensures
        list_allows(ceiling(), hostname),
{
    let h = lowercase(hostname);
    if is_ascii_chars(hostname) {
        law_ascii_lowercase(hostname);
        assert forall|i: int| 0 <= i < h.len() implies '\0' <= #[trigger] h[i] <= '\u{7f}' && !('A'
            <= h[i] <= 'Z') by {
            assert(h[i] == ascii_lower(hostname[i]));
        }
        lemma_covering_entry(entry, h);
        lemma_lower_representative(entry);
    }
    lemma_ceiling_covers(entry, h);
}

/// The representative of an ASCII entry is ASCII.
proof fn lemma_ascii_representative(entry: Seq<char>)
    requires
        is_ascii_chars(entry),
    ensures
        is_ascii_chars(representative(entry)),
    decreases entry.len(),
{
    reveal_strlit("__ceil_test__");
    if entry.len() > 0 {
        lemma_ascii_representative(entry.drop_last());
    }
}

/// A capital letter of a representative comes from its entry.
proof fn lemma_representative_letters(entry: Seq<char>, j: int)
    requires
        0 <= j < representative(entry).len(),
        'A' <= representative(entry)[j] <= 'Z',
    ensures
        entry.contains(representative(entry)[j]),
    decreases entry.len(),
{
    reveal_strlit("__ceil_test__");
    let shorter = representative(entry.drop_last());
    if j < shorter.len() {
        lemma_representative_letters(entry.drop_last(), j);
        let i = entry.drop_last().index_of(representative(entry)[j]);
        assert(entry[i] == representative(entry)[j]);
    } else {
        assert(entry.last() != '*');
        assert(entry[entry.len() - 1] == representative(entry)[j]);
    }
}

/// A list of entries that the ceiling lets pass allows no hostname that the ceiling
/// does not allow. The hostname is ASCII, or the representatives of the entries are in
/// lower case.
pub proof fn law_ceiling_bounds_list(kept: Seq<Seq<char>>, hostname: Seq<char>)
    requires
        kept.len() > 0,
        forall|i: int| 0 <= i < kept.len() ==> within_ceiling(#[trigger] kept[i]),
        is_ascii_chars(hostname) || (forall|i: int|
            0 <= i < kept.len() ==> lowercase(representative(#[trigger] kept[i]))
                == representative(kept[i])),
        list_allows(kept, hostname),
    ensures
        list_allows(ceiling(), hostname),
{
    let i = choose|i: int|
        0 <= i < kept.len() && domain_matches(#[trigger] kept[i], lowercase(hostname));
    law_ceiling_bounds_entry(kept[i], hostname);
}

/// The entries of a list that the ceiling lets pass, if there are any, allow no
/// hostname that the ceiling does not allow. The hostname is ASCII, or the pieces of
/// the list are, but for the white space around them.
pub proof fn law_configured_list_stays_under_ceiling(input: Seq<char>, hostname: Seq<char>)
    requires
        is_ascii_chars(hostname) || (forall|k: int|
            0 <= k < pieces(input, ',').len() ==> is_ascii_chars(
                trimmed(#[trigger] pieces(input, ',')[k]),
            )),
        domain_list(input).filter(|entry: Seq<char>| within_ceiling(entry)).len() > 0,
        list_allows(domain_list(input).filter(|entry: Seq<char>| within_ceiling(entry)), hostname),
    ensures
        list_allows(ceiling(), hostname),
{
    let keep = |entry: Seq<char>| within_ceiling(entry);
    let list = domain_list(input);
    let kept = list.filter(keep);
    assert forall|i: int| 0 <= i < kept.len() implies within_ceiling(#[trigger] kept[i]) by {
        list.lemma_filter_pred(keep, i);
    }
    if !is_ascii_chars(hostname) {
        assert forall|i: int| 0 <= i < kept.len() implies lowercase(
            representative(#[trigger] kept[i]),
        ) == representative(kept[i]) by {
            assert(kept.contains(kept[i]));
            list.lemma_filter_contains_rev(keep, kept[i]);
            let n = list.index_of(kept[i]);
            let k = law_entries_are_normal(input, n);
            assert(is_ascii_chars(trimmed(pieces(input, ',')[k])));
            lemma_lower_representative(list[n]);
        }
    }
    law_ceiling_bounds_list(kept, hostname);
}

/// What the ceiling filter keeps, it keeps again.
pub proof fn law_ceiling_filter_is_idempotent(domains: Seq<String>)
    ensures
        ({
            let keep = |domain: String| within_ceiling(domain@);
            domains.filter(keep).filter(keep) == domains.filter(keep)
        }),
    decreases domains.len(),
{
    let keep = |domain: String| within_ceiling(domain@);
    reveal(Seq::filter);
    if domains.len() > 0 {
        law_ceiling_filter_is_idempotent(domains.drop_last());
        let before = domains.drop_last().filter(keep);
        if keep(domains.last()) {
            assert(domains.filter(keep).drop_last() =~= before);
        }
    }
}

/// The ceiling allows `leonardo.ai` and what ends with `.leonardo.ai`, the hosts that
/// begin with `leonardo-platform-` and go on to end with `.vercel.app`, and
/// `localhost`, and nothing else. Case does not matter.
pub proof fn law_ceiling_spelled_out(hostname: Seq<char>)
    ensures
        list_allows(ceiling(), hostname) <==> {
            ||| lowercase(hostname) == "leonardo.ai"@
            ||| exists|host: Seq<char>| lowercase(hostname) == #[trigger] (host + ".leonardo.ai"@)
            ||| exists|name: Seq<char>|
                lowercase(hostname) == #[trigger] ("leonardo-platform-"@ + name + ".vercel.app"@)
            ||| lowercase(hostname) == "localhost"@
        },
{
    reveal_strlit("leonardo.ai");
    reveal_strlit(".leonardo.ai");
    reveal_strlit("*.leonardo.ai");
    reveal_strlit("leonardo-platform-");
    reveal_strlit(".vercel.app");
    reveal_strlit("leonardo-platform-*.vercel.app");
    reveal_strlit("localhost");
    let h = lowercase(hostname);
    let apex = "leonardo.ai"@;
    law_literal_pattern(apex, h);
    law_literal_pattern("localhost"@, h);
    assert(ceiling()[1] =~= seq!['*', '.'] + apex);
    assert(".leonardo.ai"@ =~= seq!['.'] + apex);
    law_wildcard_label(apex, h);
    law_beginnings_and_ends(h, ".leonardo.ai"@);
    assert(ceiling()[2] =~= "leonardo-platform-"@ + seq!['*'] + ".vercel.app"@);
    law_inner_wildcard_covers("leonardo-platform-"@, ".vercel.app"@, h);
    assert(ceiling()[0] == apex && ceiling()[3] == "localhost"@);
    assert(list_allows(ceiling(), hostname) <==> (domain_matches(ceiling()[0], h)
        || domain_matches(ceiling()[1], h) || domain_matches(ceiling()[2], h) || domain_matches(
        ceiling()[3],
        h,
    )));
}

/// An entry without a wildcard stands for itself.
pub proof fn law_literal_entry_stands_for_itself(literal: Seq<char>)
    requires
        !literal.contains('*'),
    ensures
        representative(literal) == literal,
    decreases literal.len(),
{
    if literal.len() > 0 {
        let less = literal.drop_last();
        assert(!less.contains('*')) by {
            if less.contains('*') {
                let i = less.index_of('*');
                assert(literal[i] == '*');
            }
        }
        assert(literal.contains(literal.last()));
        law_literal_entry_stands_for_itself(less);
        assert(less.push(literal.last()) =~= literal);
    }
}

/// What stands for an entry has the test label in the place of each wildcard.
pub proof fn law_wildcard_becomes_the_test_label(before: Seq<char>, after: Seq<char>)
    ensures
        representative(before + seq!['*'] + after) == representative(before) + "__ceil_test__"@
            + representative(after),
{
    lemma_representative_concat(before + seq!['*'], after);
    lemma_representative_concat(before, seq!['*']);
    reveal_with_fuel(representative, 2);
    assert(seq!['*'].drop_last() =~= Seq::<char>::empty());
    assert(representative(seq!['*']) =~= "__ceil_test__"@);
}

/// What stands for an entry is its pieces between wildcards, with the test label
/// between them.
proof fn lemma_representative_pieces(entry: Seq<char>)
    ensures
        representative(entry) == joined(pieces(entry, '*'), "__ceil_test__"@),
    decreases entry.len(),
{
    reveal_with_fuel(joined, 2);
    let label = "__ceil_test__"@;
    let all = pieces(entry, '*');
    if entry.len() > 0 {
        let before = pieces(entry.drop_last(), '*');
        lemma_representative_pieces(entry.drop_last());
        lemma_pieces_joined(entry.drop_last(), '*');
        if entry.last() == '*' {
            assert(all.drop_last() =~= before);
            assert(joined(all, label) =~= joined(before, label) + label);
        } else {
            assert(all.drop_last() =~= before.drop_last());
            assert(joined(all, label) =~= joined(before, label).push(entry.last()));
        }
    }
}

/// An entry is within the ceiling exactly where the ceiling allows the text that has
/// the test label between the pieces of the entry. In particular an entry without a
/// wildcard is within the ceiling exactly where the ceiling allows it.
pub proof fn law_entry_is_judged_by_what_stands_for_it(entry: Seq<char>)
    ensures
        within_ceiling(entry) == list_allows(
            ceiling(),
            joined(pieces(entry, '*'), "__ceil_test__"@),
        ),
        !entry.contains('*') ==> within_ceiling(entry) == list_allows(ceiling(), entry),
{
    lemma_representative_pieces(entry);
    if !entry.contains('*') {
        law_literal_entry_stands_for_itself(entry);
    }
}

/// What stands for an ASCII entry, in lower case, stands for the entry in lower case.
proof fn lemma_representative_lowercase(entry: Seq<char>)
    requires
        is_ascii_chars(entry),
    ensures
        lowercase(representative(entry)) == representative(lowercase(entry)),
    decreases entry.len(),
{
    reveal_strlit("__ceil_test__");
    lemma_ascii_representative(entry);
    let low = lowercase(entry);
    if entry.len() > 0 {
        let less = entry.drop_last();
        lemma_representative_lowercase(less);
        lemma_ascii_representative(less);
        assert(low.drop_last() =~= lowercase(less));
        assert(low.last() == ascii_lower(entry.last()));
        if entry.last() == '*' {
            assert(lowercase(representative(entry)) =~= lowercase(representative(less))
                + "__ceil_test__"@);
        } else {
            assert(ascii_lower(entry.last()) != '*');
            assert(lowercase(representative(entry)) =~= lowercase(representative(less)).push(
                ascii_lower(entry.last()),
            ));
        }
    } else {
        assert(low =~= entry);
        assert(lowercase(representative(entry)) =~= representative(low));
    }
}

/// An entry is a literal text without underscores exactly where what stands for it is.
proof fn lemma_literal_alike(entry: Seq<char>, literal: Seq<char>)
    requires
        !literal.contains('_'),
        !literal.contains('*'),
    ensures
        representative(entry) == literal <==> entry == literal,
{
    law_literal_entry_stands_for_itself(literal);
    if representative(entry) == literal {
        lemma_representative_itself(entry, literal);
    }
}

/// An entry ends with a literal text without underscores exactly where what stands for
/// it does.
proof fn lemma_end_alike(entry: Seq<char>, end: Seq<char>)
    requires
        !end.contains('_'),
        !end.contains('*'),
    ensures
        ends_with(representative(entry), end) <==> ends_with(entry, end),
{
    law_literal_entry_stands_for_itself(end);
    if ends_with(representative(entry), end) {
        lemma_representative_end(entry, end);
    }
    if ends_with(entry, end) {
        let rest = entry.take(entry.len() - end.len());
        assert(entry =~= rest + end);
        lemma_representative_concat(rest, end);
        let whole = representative(entry);
        assert(whole.skip(whole.len() - end.len()) =~= end);
    }
}

/// An entry is some text between two literal ones without underscores exactly where
/// what stands for it is.
proof fn lemma_between_alike(entry: Seq<char>, prefix: Seq<char>, suffix: Seq<char>)
    requires
        !prefix.contains('_'),
        !prefix.contains('*'),
        !suffix.contains('_'),
        !suffix.contains('*'),
    ensures
        (exists|name: Seq<char>| representative(entry) == #[trigger] (prefix + name + suffix)) <==> (
        exists|name: Seq<char>| entry == #[trigger] (prefix + name + suffix)),
{
    let rep = representative(entry);
    if exists|name: Seq<char>| rep == #[trigger] (prefix + name + suffix) {
        let name = choose|name: Seq<char>| rep == #[trigger] (prefix + name + suffix);
        assert(rep.take(prefix.len() as int) =~= prefix);
        lemma_representative_start(entry, prefix);
        let rest = entry.skip(prefix.len() as int);
        let later = representative(rest);
        assert(later =~= name + suffix);
        assert(later.skip(later.len() - suffix.len()) =~= suffix);
        lemma_representative_end(rest, suffix);
        let between = rest.take(rest.len() - suffix.len());
        assert(rest =~= between + rest.skip(rest.len() - suffix.len()));
        assert(entry =~= entry.take(prefix.len() as int) + rest);
        assert(entry =~= prefix + between + suffix);
    }
    if exists|name: Seq<char>| entry == #[trigger] (prefix + name + suffix) {
        let name = choose|name: Seq<char>| entry == #[trigger] (prefix + name + suffix);
        law_literal_entry_stands_for_itself(prefix);
        law_literal_entry_stands_for_itself(suffix);
        lemma_representative_concat(prefix + name, suffix);
        lemma_representative_concat(prefix, name);
        assert(rep == prefix + representative(name) + suffix);
    }
}

/// The texts that the ceiling is made of hold no underscore and no wildcard.
proof fn lemma_ceiling_texts()
    ensures
        !"leonardo.ai"@.contains('_') && !"leonardo.ai"@.contains('*'),
        !".leonardo.ai"@.contains('_') && !".leonardo.ai"@.contains('*'),
        !"leonardo-platform-"@.contains('_') && !"leonardo-platform-"@.contains('*'),
        !".vercel.app"@.contains('_') && !".vercel.app"@.contains('*'),
        !"localhost"@.contains('_') && !"localhost"@.contains('*'),
{
    reveal_strlit("leonardo.ai");
    reveal_strlit(".leonardo.ai");
    reveal_strlit("leonardo-platform-");
    reveal_strlit(".vercel.app");
    reveal_strlit("localhost");
}

/// The ceiling keeps what it covers, wildcards or not: an ASCII entry is within the
/// ceiling exactly where its text, in lower case, is `leonardo.ai`, ends with
/// `.leonardo.ai`, begins with `leonardo-platform-` and goes on to end with
/// `.vercel.app`, or is `localhost`.
pub proof fn law_ceiling_keeps_what_it_covers(entry: Seq<char>)
    requires
        is_ascii_chars(entry),
    ensures
        within_ceiling(entry) <==> {
            ||| lowercase(entry) == "leonardo.ai"@
            ||| exists|host: Seq<char>| lowercase(entry) == #[trigger] (host + ".leonardo.ai"@)
            ||| exists|name: Seq<char>|
                lowercase(entry) == #[trigger] ("leonardo-platform-"@ + name + ".vercel.app"@)
            ||| lowercase(entry) == "localhost"@
        },
{
    let low = lowercase(entry);
    lemma_ceiling_texts();
    lemma_representative_lowercase(entry);
    law_ceiling_spelled_out(representative(entry));
    lemma_literal_alike(low, "leonardo.ai"@);
    lemma_literal_alike(low, "localhost"@);
    lemma_end_alike(low, ".leonardo.ai"@);
    law_beginnings_and_ends(low, ".leonardo.ai"@);
    law_beginnings_and_ends(representative(low), ".leonardo.ai"@);
    lemma_between_alike(low, "leonardo-platform-"@, ".vercel.app"@);
}

/// Every pattern of the ceiling is within the ceiling.
pub proof fn law_ceiling_patterns_are_within(i: int)
    requires
        0 <= i < ceiling().len(),
    ensures
        within_ceiling(ceiling()[i]),
{
    reveal_strlit("leonardo.ai");
    reveal_strlit(".leonardo.ai");
    reveal_strlit("*.leonardo.ai");
    reveal_strlit("leonardo-platform-");
    reveal_strlit(".vercel.app");
    reveal_strlit("leonardo-platform-*.vercel.app");
    reveal_strlit("localhost");
    let entry = ceiling()[i];
    assert(is_ascii_chars(entry));
    assert(lowercase(entry) =~= entry);
    law_ceiling_keeps_what_it_covers(entry);
    if i == 1 {
        assert(entry =~= seq!['*'] + ".leonardo.ai"@);
    } else if i == 2 {
        assert(entry =~= "leonardo-platform-"@ + seq!['*'] + ".vercel.app"@);
    }
}

/// The warning about an entry quotes it.
pub proof fn law_warning_quotes_the_entry(entry: Seq<char>)
    ensures
        ceiling_warning(entry) == "[agent-browser] domain \""@ + entry
            + "\" not in approved ceiling, ignored"@,
{
}

/// Every entry is either kept or warned about, and none is both.
pub proof fn law_entry_is_kept_or_warned_about(domains: Seq<String>, i: int)
    requires
        0 <= i < domains.len(),
    ensures
        ({
            let kept = domains.filter(|domain: String| within_ceiling(domain@));
            let dropped = domains.filter(|domain: String| !within_ceiling(domain@));
            &&& kept.len() + dropped.len() == domains.len()
            &&& kept.contains(domains[i]) <==> !dropped.contains(domains[i])
        }),
{
    let keep = |domain: String| within_ceiling(domain@);
    let drop = |domain: String| !within_ceiling(domain@);
    lemma_kept_and_dropped(domains);
    if keep(domains[i]) {
        domains.lemma_filter_contains(keep, i);
        if domains.filter(drop).contains(domains[i]) {
            domains.lemma_filter_contains_rev(drop, domains[i]);
            let j = domains.filter(drop).index_of(domains[i]);
            domains.lemma_filter_pred(drop, j);
        }
    } else {
        domains.lemma_filter_contains(drop, i);
        if domains.filter(keep).contains(domains[i]) {
            let j = domains.filter(keep).index_of(domains[i]);
            domains.lemma_filter_pred(keep, j);
        }
    }
}

/// What is kept and what is dropped make up a list.
proof fn lemma_kept_and_dropped(domains: Seq<String>)
    ensures
        domains.filter(|domain: String| within_ceiling(domain@)).len() + domains.filter(
            |domain: String| !within_ceiling(domain@),
        ).len() == domains.len(),
    decreases domains.len(),
{
    reveal(Seq::filter);
    if domains.len() > 0 {
        lemma_kept_and_dropped(domains.drop_last());
    }
}

} // verus!
