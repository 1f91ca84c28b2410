//! Domain patterns: matching a hostname against a pattern with wildcards.

use crate::text::{chars_of, joined, lemma_pieces_joined, split_at_char, texts};
use vstd::prelude::*;

verus! {

/// Whether `subject` is `pattern` with every `*` replaced by some text.
pub open spec fn glob(pattern: Seq<char>, subject: Seq<char>) -> bool
    decreases pattern.len(),
{
    if pattern.len() == 0 {
        subject.len() == 0
    } else if pattern.first() == '*' {
        exists|k: int|
            0 <= k <= subject.len() && glob(pattern.drop_first(), #[trigger] subject.skip(k))
    } else {
        &&& subject.len() > 0
        &&& subject.first() == pattern.first()
        &&& glob(pattern.drop_first(), subject.drop_first())
    }
}

/// Whether a pattern opens with the wildcard label `*.`.
pub open spec fn has_wildcard_label(pattern: Seq<char>) -> bool {
    pattern.len() >= 2 && pattern[0] == '*' && pattern[1] == '.'
}

/// Whether a domain pattern covers a hostname: `*` stands for any text, and a
/// leading `*.` may also be left out.
pub open spec fn domain_matches(pattern: Seq<char>, hostname: Seq<char>) -> bool {
    ||| glob(pattern, hostname)
    ||| has_wildcard_label(pattern) && glob(pattern.skip(2), hostname)
}

/// Whether `s` begins with `prefix`.
pub open spec fn begins_with(s: Seq<char>, prefix: Seq<char>) -> bool {
    prefix.len() <= s.len() && s.take(prefix.len() as int) == prefix
}

/// Whether `s` ends with `suffix`.
pub open spec fn ends_with(s: Seq<char>, suffix: Seq<char>) -> bool {
    suffix.len() <= s.len() && s.skip(s.len() - suffix.len()) == suffix
}

/// Whether `subject` is any text, then the first fragment, then any text, then
/// the second, and so on, up to the last fragment at its end.
spec fn tail_matches(fragments: Seq<Seq<char>>, subject: Seq<char>) -> bool
    decreases fragments.len(),
{
    if fragments.len() == 0 {
        false
    } else if fragments.len() == 1 {
        ends_with(subject, fragments.first())
    } else {
        exists|k: int|
            0 <= k <= subject.len() && begins_with(#[trigger] subject.skip(k), fragments.first())
                && tail_matches(
                fragments.drop_first(),
                subject.skip(k).skip(fragments.first().len() as int),
            )
    }
}

/// Whether no text in the list holds a `*`.
spec fn all_literal(fragments: Seq<Seq<char>>) -> bool {
    forall|i: int| 0 <= i < fragments.len() ==> !(#[trigger] fragments[i]).contains('*')
}

/// A literal start of a pattern has to stand at the start of the subject.
pub proof fn lemma_glob_literal_start(literal: Seq<char>, rest: Seq<char>, subject: Seq<char>)
    requires
        !literal.contains('*'),
    ensures
        glob(literal + rest, subject) == (begins_with(subject, literal) && glob(
            rest,
            subject.skip(literal.len() as int),
        )),
    decreases literal.len(),
{
    if literal.len() == 0 {
        assert(literal + rest =~= rest);
        assert(subject.skip(0) =~= subject);
        assert(subject.take(0) =~= literal);
    } else {
        let pattern = literal + rest;
        assert(literal.contains(literal[0]));
        assert(pattern.first() == literal.first());
        assert(pattern.drop_first() =~= literal.drop_first() + rest);
        assert(!literal.drop_first().contains('*')) by {
            if literal.drop_first().contains('*') {
                let i = literal.drop_first().index_of('*');
                assert(literal[i + 1] == '*');
            }
        }
        if subject.len() >= literal.len() {
            lemma_glob_literal_start(literal.drop_first(), rest, subject.drop_first());
            assert(subject.drop_first().skip(literal.len() - 1) =~= subject.skip(
                literal.len() as int,
            ));
            if begins_with(subject, literal) {
                assert(subject.first() == subject.take(literal.len() as int)[0]);
                assert(subject.drop_first().take(literal.len() - 1) =~= literal.drop_first());
            }
            if subject.first() == literal.first() && begins_with(
                subject.drop_first(),
                literal.drop_first(),
            ) {
                assert forall|i: int| 0 <= i < literal.len() implies subject[i] == literal[i] by {
                    if i > 0 {
                        assert(subject.drop_first().take(literal.len() - 1)[i - 1] == subject[i]);
                        assert(literal.drop_first()[i - 1] == literal[i]);
                    }
                }
                assert(subject.take(literal.len() as int) =~= literal);
            }
        } else if subject.len() > 0 {
            lemma_glob_literal_start(literal.drop_first(), rest, subject.drop_first());
        }
    }
}

/// A joined list is its first text, the glue, and the rest joined.
proof fn lemma_joined_first(parts: Seq<Seq<char>>, glue: Seq<char>)
    requires
        parts.len() >= 2,
    ensures
        joined(parts, glue) == parts.first() + (glue + joined(parts.drop_first(), glue)),
    decreases parts.len(),
{
    reveal_with_fuel(joined, 3);
    if parts.len() == 2 {
        assert(parts.drop_last().first() == parts.first());
        assert(joined(parts, glue) =~= parts.first() + (glue + joined(parts.drop_first(), glue)));
    } else {
        lemma_joined_first(parts.drop_last(), glue);
        assert(parts.drop_last().drop_first() =~= parts.drop_first().drop_last());
        assert(joined(parts, glue) =~= parts.first() + (glue + joined(parts.drop_first(), glue)));
    }
}

/// A pattern given by its literal fragments: the first stands at the start of
/// the subject, the others follow with any text before each.
proof fn lemma_glob_fragments(fragments: Seq<Seq<char>>, subject: Seq<char>)
    requires
        fragments.len() >= 1,
        all_literal(fragments),
    ensures
        glob(joined(fragments, seq!['*']), subject) == (begins_with(subject, fragments.first())
            && if fragments.len() == 1 {
            subject.len() == fragments.first().len()
        } else {
            tail_matches(
                fragments.drop_first(),
                subject.skip(fragments.first().len() as int),
            )
        }),
    decreases fragments.len(),
{
    let head = fragments.first();
    let rest = subject.skip(head.len() as int);
    assert(!fragments[0].contains('*'));
    if fragments.len() == 1 {
        lemma_glob_literal_start(head, Seq::empty(), subject);
        assert(head + Seq::<char>::empty() =~= head);
    } else {
        let more = fragments.drop_first();
        let tail = joined(more, seq!['*']);
        let starred = seq!['*'] + tail;
        assert(all_literal(more)) by {
            assert forall|i: int| 0 <= i < more.len() implies !(#[trigger] more[i]).contains(
                '*',
            ) by {
                assert(more[i] == fragments[i + 1]);
            }
        }
        lemma_joined_first(fragments, seq!['*']);
        lemma_glob_literal_start(head, starred, subject);
        assert(starred.drop_first() =~= tail);
        assert(starred.first() == '*');
        if begins_with(subject, head) {
            assert(glob(starred, rest) == (exists|k: int|
                0 <= k <= rest.len() && glob(tail, #[trigger] rest.skip(k))));
            assert forall|k: int| 0 <= k <= rest.len() implies glob(tail, #[trigger] rest.skip(k))
                == (begins_with(rest.skip(k), more.first()) && if more.len() == 1 {
                rest.skip(k).len() == more.first().len()
            } else {
                tail_matches(more.drop_first(), rest.skip(k).skip(more.first().len() as int))
            }) by {
                lemma_glob_fragments(more, rest.skip(k));
            }
            if more.len() == 1 {
                if ends_with(rest, more.first()) {
                    let k = rest.len() - more.first().len();
                    assert(rest.skip(k).take(more.first().len() as int) =~= rest.skip(k));
                    assert(glob(tail, rest.skip(k)));
                }
                if glob(starred, rest) {
                    let k = choose|k: int|
                        0 <= k <= rest.len() && glob(tail, #[trigger] rest.skip(k));
                    assert(rest.skip(k).take(more.first().len() as int) =~= rest.skip(k));
                    assert(k == rest.len() - more.first().len());
                }
            }
        }
    }
}

/// Text put in front of the subject does no harm: it belongs to the first gap.
proof fn lemma_tail_matches_longer(fragments: Seq<Seq<char>>, subject: Seq<char>, n: int)
    requires
        0 <= n <= subject.len(),
        tail_matches(fragments, subject.skip(n)),
    ensures
        tail_matches(fragments, subject),
{
    let shorter = subject.skip(n);
    if fragments.len() == 1 {
        assert(shorter.skip(shorter.len() - fragments.first().len()) =~= subject.skip(
            subject.len() - fragments.first().len(),
        ));
    } else {
        let k = choose|k: int|
            0 <= k <= shorter.len() && begins_with(#[trigger] shorter.skip(k), fragments.first())
                && tail_matches(
                fragments.drop_first(),
                shorter.skip(k).skip(fragments.first().len() as int),
            );
        assert(shorter.skip(k) =~= subject.skip(n + k));
    }
}

/// Whether `fragment` stands in `subject` at `at`.
fn stands_at(subject: &[char], at: usize, fragment: &[char]) -> (found: bool)
    requires
        at <= subject@.len(),
    ensures
        found == begins_with(subject@.skip(at as int), fragment@),
{
    if subject.len() - at < fragment.len() {
        return false;
    }
    let mut i: usize = 0;
    while i < fragment.len()
        invariant
            at + fragment@.len() <= subject.len(),
            i <= fragment@.len(),
            forall|j: int| 0 <= j < i ==> subject@[at + j] == fragment@[j],
        decreases fragment@.len() - i,
    {
        if subject[at + i] != fragment[i] {
            assert(subject@.skip(at as int).take(fragment@.len() as int)[i as int] != fragment@[i as int]);
            return false;
        }
        i = i + 1;
    }
    assert(subject@.skip(at as int).take(fragment@.len() as int) =~= fragment@);
    true
}

/// The first place at or after `from` where `fragment` stands in `subject`.
fn find_from(subject: &[char], from: usize, fragment: &[char]) -> (place: Option<usize>)
    requires
        from <= subject@.len(),
    ensures
        match place {
            Some(at) => {
                &&& from <= at <= subject@.len()
                &&& begins_with(subject@.skip(at as int), fragment@)
                &&& forall|j: int|
                    from <= j < at ==> !begins_with(#[trigger] subject@.skip(j), fragment@)
            },
            None => forall|j: int|
                from <= j <= subject@.len() ==> !begins_with(
                    #[trigger] subject@.skip(j),
                    fragment@,
                ),
        },
{
    let mut at: usize = from;
    while at < subject.len()
        invariant
            from <= at <= subject@.len(),
            forall|j: int|
                from <= j < at ==> !begins_with(#[trigger] subject@.skip(j), fragment@),
        decreases subject@.len() - at,
    {
        if stands_at(subject, at, fragment) {
            return Some(at);
        }
        at = at + 1;
    }
    if stands_at(subject, at, fragment) {
        Some(at)
    } else {
        None
    }
}

/// Matches a subject against a pattern in which every `*` stands for any text.
fn matches_glob(pattern: &str, subject: &[char]) -> (matched: bool)
    ensures
        matched == glob(pattern@, subject@),
{
    let parts = split_at_char(pattern, '*');
    let ghost fragments = texts(parts@);
    proof {
        lemma_pieces_joined(pattern@, '*');
        assert(all_literal(fragments));
        lemma_glob_fragments(fragments, subject@);
    }
    let head = chars_of(parts[0].as_str());
    assert(head@ == fragments.first());
    if !stands_at(subject, 0, head.as_slice()) {
        assert(subject@.skip(0) =~= subject@);
        return false;
    }
    assert(subject@.skip(0) =~= subject@);
    if parts.len() == 1 {
        return subject.len() == head.len();
    }
    let mut at: usize = head.len();
    let mut i: usize = 1;
    assert(fragments.skip(1) =~= fragments.drop_first());
    while i < parts.len() - 1
        invariant
            fragments == texts(parts@),
            1 <= i <= parts@.len() - 1,
            at <= subject@.len(),
            glob(pattern@, subject@) == tail_matches(
                fragments.skip(i as int),
                subject@.skip(at as int),
            ),
        decreases parts@.len() - i,
    {
        let fragment = chars_of(parts[i].as_str());
        let ghost rest = subject@.skip(at as int);
        let ghost more = fragments.skip(i as int);
        assert(more.first() == fragment@);
        assert(more.drop_first() =~= fragments.skip(i + 1));
        match find_from(subject, at, fragment.as_slice()) {
            Some(place) => {
                assert(place + fragment@.len() <= subject.len());
                let next: usize = place + fragment.len();
                proof {
                    let first = place - at;
                    assert(rest.skip(first) =~= subject@.skip(place as int));
                    assert(rest.skip(first).skip(fragment@.len() as int) =~= subject@.skip(
                        next as int,
                    ));
                    if tail_matches(more, rest) {
                        let k = choose|k: int|
                            0 <= k <= rest.len() && begins_with(
                                #[trigger] rest.skip(k),
                                more.first(),
                            ) && tail_matches(
                                more.drop_first(),
                                rest.skip(k).skip(more.first().len() as int),
                            );
                        assert(rest.skip(k) =~= subject@.skip(at + k));
                        assert(first <= k);
                        assert(rest.skip(k).skip(fragment@.len() as int) =~= subject@.skip(
                            next as int,
                        ).skip(k - first));
                        lemma_tail_matches_longer(
                            more.drop_first(),
                            subject@.skip(next as int),
                            k - first,
                        );
                    }
                }
                at = next;
            },
            None => {
                proof {
                    assert forall|k: int| 0 <= k <= rest.len() implies !begins_with(
                        #[trigger] rest.skip(k),
                        more.first(),
                    ) by {
                        assert(rest.skip(k) =~= subject@.skip(at + k));
                    }
                }
                return false;
            },
        }
        i = i + 1;
    }
    let tail = chars_of(parts[i].as_str());
    let ghost rest = subject@.skip(at as int);
    assert(fragments.skip(i as int).first() == tail@);
    if subject.len() - at < tail.len() {
        return false;
    }
    let end: usize = subject.len() - tail.len();
    assert(rest.skip(rest.len() - tail@.len()) =~= subject@.skip(end as int));
    assert(subject@.skip(end as int).take(tail@.len() as int) =~= subject@.skip(end as int));
    stands_at(subject, end, tail.as_slice())
}

/// Matches a hostname against a single domain pattern.
/// `*` is a wildcard anywhere in the pattern:
///  - `*.example.com` matches `example.com` and `sub.example.com`
///  - `prefix-*.example.com` matches `prefix-abc.example.com`
///  - `example.com` matches only `example.com`
pub fn glob_match_domain(pattern: &str, hostname: &str) -> (matched: bool)
    ensures
        matched == domain_matches(pattern@, hostname@),
{
    let subject = chars_of(hostname);
    if matches_glob(pattern, subject.as_slice()) {
        return true;
    }
    let chars = chars_of(pattern);
    if chars.len() >= 2 && chars[0] == '*' && chars[1] == '.' {
        let apex = pattern.substring_char(2, chars.len());
        assert(apex@ =~= pattern@.skip(2));
        matches_glob(apex, subject.as_slice())
    } else {
        false
    }
}

/// How many wildcards a pattern has.
pub open spec fn wildcards(pattern: Seq<char>) -> nat
    decreases pattern.len(),
{
    if pattern.len() == 0 {
        0
    } else if pattern.first() == '*' {
        1 + wildcards(pattern.drop_first())
    } else {
        wildcards(pattern.drop_first())
    }
}

/// `pattern` with its wildcards replaced, from left to right, by the texts in
/// `gaps`.
pub open spec fn filled(pattern: Seq<char>, gaps: Seq<Seq<char>>) -> Seq<char>
    decreases pattern.len(),
{
    if pattern.len() == 0 {
        Seq::<char>::empty()
    } else if pattern.first() == '*' {
        gaps.first() + filled(pattern.drop_first(), gaps.drop_first())
    } else {
        seq![pattern.first()] + filled(pattern.drop_first(), gaps)
    }
}

/// Whatever the wildcards of a pattern are replaced by, the result matches it.
pub proof fn law_filled_pattern_matches(pattern: Seq<char>, gaps: Seq<Seq<char>>)
    requires
        gaps.len() == wildcards(pattern),
    ensures
        glob(pattern, filled(pattern, gaps)),
        domain_matches(pattern, filled(pattern, gaps)),
    decreases pattern.len(),
{
    let subject = filled(pattern, gaps);
    if pattern.len() > 0 {
        if pattern.first() == '*' {
            law_filled_pattern_matches(pattern.drop_first(), gaps.drop_first());
            assert(subject.skip(gaps.first().len() as int) =~= filled(
                pattern.drop_first(),
                gaps.drop_first(),
            ));
        } else {
            law_filled_pattern_matches(pattern.drop_first(), gaps);
            assert(subject.drop_first() =~= filled(pattern.drop_first(), gaps));
        }
    }
}

/// Every text that matches a pattern is the pattern with its wildcards replaced
/// by some texts.
pub proof fn law_matching_text_is_filled(pattern: Seq<char>, subject: Seq<char>) -> (gaps: Seq<
    Seq<char>,
>)
    requires
        glob(pattern, subject),
    ensures
        gaps.len() == wildcards(pattern),
        subject == filled(pattern, gaps),
    decreases pattern.len(),
{
    if pattern.len() == 0 {
        assert(subject =~= Seq::<char>::empty());
        Seq::empty()
    } else if pattern.first() == '*' {
        let k = choose|k: int|
            0 <= k <= subject.len() && glob(pattern.drop_first(), #[trigger] subject.skip(k));
        let more = law_matching_text_is_filled(pattern.drop_first(), subject.skip(k));
        let gaps = seq![subject.take(k)] + more;
        assert(gaps.drop_first() =~= more);
        assert(subject =~= subject.take(k) + subject.skip(k));
        gaps
    } else {
        let gaps = law_matching_text_is_filled(pattern.drop_first(), subject.drop_first());
        assert(subject =~= seq![pattern.first()] + subject.drop_first());
        gaps
    }
}

/// A pattern without a wildcard matches itself and nothing else.
pub proof fn law_literal_pattern(pattern: Seq<char>, hostname: Seq<char>)
    requires
        !pattern.contains('*'),
    ensures
        glob(pattern, hostname) == (hostname == pattern),
        domain_matches(pattern, hostname) == (hostname == pattern),
{
    lemma_glob_literal_start(pattern, Seq::empty(), hostname);
    assert(pattern + Seq::<char>::empty() =~= pattern);
    assert(hostname.len() == pattern.len() ==> hostname.take(pattern.len() as int) =~= hostname);
    if has_wildcard_label(pattern) {
        assert(pattern.contains(pattern[0]));
    }
}

/// A literal text before a wildcard and one after it: a text matches if it has
/// both, at its two ends and without an overlap.
pub proof fn law_inner_wildcard(prefix: Seq<char>, suffix: Seq<char>, hostname: Seq<char>)
    requires
        !prefix.contains('*'),
        !suffix.contains('*'),
    ensures
        glob(prefix + seq!['*'] + suffix, hostname) == (begins_with(hostname, prefix) && ends_with(
            hostname.skip(prefix.len() as int),
            suffix,
        )),
{
    let starred = seq!['*'] + suffix;
    let rest = hostname.skip(prefix.len() as int);
    assert(prefix + seq!['*'] + suffix =~= prefix + starred);
    lemma_glob_literal_start(prefix, starred, hostname);
    assert(starred.drop_first() =~= suffix);
    if begins_with(hostname, prefix) {
        if glob(starred, rest) {
            let k = choose|k: int| 0 <= k <= rest.len() && glob(suffix, #[trigger] rest.skip(k));
            law_literal_pattern(suffix, rest.skip(k));
            assert(k == rest.len() - suffix.len());
        }
        if ends_with(rest, suffix) {
            law_literal_pattern(suffix, rest.skip(rest.len() - suffix.len()));
        }
    }
}

/// `*.` before a literal domain matches the domain and everything that ends with
/// a dot and the domain, and nothing else.
pub proof fn law_wildcard_label(domain: Seq<char>, hostname: Seq<char>)
    requires
        !domain.contains('*'),
    ensures
        domain_matches(seq!['*', '.'] + domain, hostname) == (hostname == domain || ends_with(
            hostname,
            seq!['.'] + domain,
        )),
{
    let pattern = seq!['*', '.'] + domain;
    let dotted = seq!['.'] + domain;
    assert(pattern.skip(2) =~= domain);
    law_literal_pattern(domain, hostname);
    assert(!dotted.contains('*')) by {
        if dotted.contains('*') {
            let i = dotted.index_of('*');
            assert(domain[i - 1] == '*');
        }
    }
    law_inner_wildcard(Seq::empty(), dotted, hostname);
    assert(Seq::<char>::empty() + seq!['*'] + dotted =~= pattern);
    assert(hostname.skip(0) =~= hostname);
    assert(hostname.take(0) =~= Seq::<char>::empty());
}

/// A text begins with another exactly where it is that one and then some text, and
/// it ends with another exactly where it is some text and then that one.
pub proof fn law_beginnings_and_ends(s: Seq<char>, part: Seq<char>)
    ensures
        begins_with(s, part) <==> exists|rest: Seq<char>| s == #[trigger] (part + rest),
        ends_with(s, part) <==> exists|rest: Seq<char>| s == #[trigger] (rest + part),
{
    if begins_with(s, part) {
        assert(s =~= part + s.skip(part.len() as int));
    }
    if exists|rest: Seq<char>| s == #[trigger] (part + rest) {
        let rest = choose|rest: Seq<char>| s == #[trigger] (part + rest);
        assert(s.take(part.len() as int) =~= part);
    }
    if ends_with(s, part) {
        assert(s =~= s.take(s.len() - part.len()) + part);
    }
    if exists|rest: Seq<char>| s == #[trigger] (rest + part) {
        let rest = choose|rest: Seq<char>| s == #[trigger] (rest + part);
        assert(s.skip(s.len() - part.len()) =~= part);
    }
}

/// A pattern in two parts matches a text that can be cut so that each part matches
/// its side, and no other.
proof fn lemma_glob_parts(a: Seq<char>, b: Seq<char>, subject: Seq<char>)
    ensures
        glob(a + b, subject) <==> exists|k: int|
            0 <= k <= subject.len() && glob(a, #[trigger] subject.take(k)) && glob(
                b,
                subject.skip(k),
            ),
    decreases a.len(),
{
    let whole = a + b;
    if a.len() == 0 {
        assert(whole =~= b);
        assert(subject.skip(0) =~= subject);
        assert(subject.take(0).len() == 0);
    } else {
        let rest = a.drop_first();
        assert(whole.drop_first() =~= rest + b);
        assert(whole.first() == a.first());
        if a.first() == '*' {
            if glob(whole, subject) {
                let n = choose|n: int|
                    0 <= n <= subject.len() && glob(rest + b, #[trigger] subject.skip(n));
                let later = subject.skip(n);
                lemma_glob_parts(rest, b, later);
                let k = choose|k: int|
                    0 <= k <= later.len() && glob(rest, #[trigger] later.take(k)) && glob(
                        b,
                        later.skip(k),
                    );
                assert(subject.take(n + k).skip(n) =~= later.take(k));
                assert(subject.skip(n + k) =~= later.skip(k));
                assert(glob(a, subject.take(n + k)));
            }
            if exists|k: int|
                0 <= k <= subject.len() && glob(a, #[trigger] subject.take(k)) && glob(
                    b,
                    subject.skip(k),
                ) {
                let k = choose|k: int|
                    0 <= k <= subject.len() && glob(a, #[trigger] subject.take(k)) && glob(
                        b,
                        subject.skip(k),
                    );
                let side = subject.take(k);
                let n = choose|n: int|
                    0 <= n <= side.len() && glob(rest, #[trigger] side.skip(n));
                let later = subject.skip(n);
                lemma_glob_parts(rest, b, later);
                assert(later.take(k - n) =~= side.skip(n));
                assert(later.skip(k - n) =~= subject.skip(k));
                assert(glob(rest + b, later));
            }
        } else if subject.len() > 0 {
            let later = subject.drop_first();
            lemma_glob_parts(rest, b, later);
            if glob(whole, subject) {
                let k = choose|k: int|
                    0 <= k <= later.len() && glob(rest, #[trigger] later.take(k)) && glob(
                        b,
                        later.skip(k),
                    );
                assert(subject.take(k + 1).drop_first() =~= later.take(k));
                assert(subject.skip(k + 1) =~= later.skip(k));
                assert(glob(a, subject.take(k + 1)));
            }
            if exists|k: int|
                0 <= k <= subject.len() && glob(a, #[trigger] subject.take(k)) && glob(
                    b,
                    subject.skip(k),
                ) {
                let k = choose|k: int|
                    0 <= k <= subject.len() && glob(a, #[trigger] subject.take(k)) && glob(
                        b,
                        subject.skip(k),
                    );
                assert(later.take(k - 1) =~= subject.take(k).drop_first());
                assert(later.skip(k - 1) =~= subject.skip(k));
            }
        }
    }
}

/// A wildcard stands for any text: a pattern with one between two parts matches a
/// text with a start that the first part matches and an end that the second part
/// matches, whatever is between them, and no other text.
pub proof fn law_wildcard_stands_for_any_text(a: Seq<char>, b: Seq<char>, subject: Seq<char>)
    ensures
        glob(a + seq!['*'] + b, subject) <==> exists|k: int, l: int|
            0 <= k <= l <= subject.len() && glob(a, #[trigger] subject.take(k)) && glob(
                b,
                #[trigger] subject.skip(l),
            ),
{
    let starred = seq!['*'] + b;
    assert(a + seq!['*'] + b =~= a + starred);
    assert(starred.drop_first() =~= b);
    lemma_glob_parts(a, starred, subject);
    if glob(a + starred, subject) {
        let k = choose|k: int|
            0 <= k <= subject.len() && glob(a, #[trigger] subject.take(k)) && glob(
                starred,
                subject.skip(k),
            );
        let later = subject.skip(k);
        let n = choose|n: int| 0 <= n <= later.len() && glob(b, #[trigger] later.skip(n));
        assert(later.skip(n) =~= subject.skip(k + n));
        assert(glob(a, subject.take(k)) && glob(b, subject.skip(k + n)));
    }
    if exists|k: int, l: int|
        0 <= k <= l <= subject.len() && glob(a, #[trigger] subject.take(k)) && glob(
            b,
            #[trigger] subject.skip(l),
        ) {
        let (k, l) = choose|k: int, l: int|
            0 <= k <= l <= subject.len() && glob(a, #[trigger] subject.take(k)) && glob(
                b,
                #[trigger] subject.skip(l),
            );
        let later = subject.skip(k);
        assert(later.skip(l - k) =~= subject.skip(l));
        assert(glob(starred, later));
    }
}

/// A leading `*.` may be left out, and nothing else of a pattern may.
pub proof fn law_leading_label_may_be_left_out(pattern: Seq<char>, hostname: Seq<char>)
    ensures
        domain_matches(seq!['*', '.'] + pattern, hostname) == (glob(
            seq!['*', '.'] + pattern,
            hostname,
        ) || glob(pattern, hostname)),
        !(pattern.len() >= 2 && pattern[0] == '*' && pattern[1] == '.') ==> domain_matches(
            pattern,
            hostname,
        ) == glob(pattern, hostname),
{
    assert((seq!['*', '.'] + pattern).skip(2) =~= pattern);
}

/// A hostname that a pattern covers is the pattern with its wildcards replaced by
/// some texts, or what stands behind its leading `*.` with its wildcards replaced.
pub proof fn law_covered_hostname_is_filled(pattern: Seq<char>, hostname: Seq<char>) -> (gaps: Seq<
    Seq<char>,
>)
    requires
        domain_matches(pattern, hostname),
    ensures
        (gaps.len() == wildcards(pattern) && hostname == filled(pattern, gaps)) || (
        pattern.len() >= 2 && pattern[0] == '*' && pattern[1] == '.' && gaps.len() == wildcards(
            pattern.skip(2),
        ) && hostname == filled(pattern.skip(2), gaps)),
{
    if glob(pattern, hostname) {
        law_matching_text_is_filled(pattern, hostname)
    } else {
        law_matching_text_is_filled(pattern.skip(2), hostname)
    }
}

/// A literal text before a wildcard and one after it cover the hostnames that have
/// both, at their two ends and without an overlap, and no other.
pub proof fn law_inner_wildcard_covers(prefix: Seq<char>, suffix: Seq<char>, hostname: Seq<char>)
    requires
        prefix.len() > 0,
        !prefix.contains('*'),
        !suffix.contains('*'),
    ensures
        domain_matches(prefix + seq!['*'] + suffix, hostname) <==> exists|between: Seq<char>|
            hostname == #[trigger] (prefix + between + suffix),
{
    let pattern = prefix + seq!['*'] + suffix;
    let rest = hostname.skip(prefix.len() as int);
    assert(prefix.contains(prefix[0]));
    assert(pattern[0] == prefix[0]);
    law_inner_wildcard(prefix, suffix, hostname);
    if domain_matches(pattern, hostname) {
        let between = rest.take(rest.len() - suffix.len());
        assert(hostname =~= hostname.take(prefix.len() as int) + rest);
        assert(rest =~= between + rest.skip(rest.len() - suffix.len()));
        assert(hostname =~= prefix + between + suffix);
    }
    if exists|between: Seq<char>| hostname == #[trigger] (prefix + between + suffix) {
        let between = choose|between: Seq<char>|
            hostname == #[trigger] (prefix + between + suffix);
        assert(hostname.take(prefix.len() as int) =~= prefix);
        assert(rest =~= between + suffix);
        assert(rest.skip(rest.len() - suffix.len()) =~= suffix);
    }
}

} // verus!
