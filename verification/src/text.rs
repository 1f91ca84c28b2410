//! Strings as sequences of characters: splitting, joining, trimming, case
//! folding and decimal numerals.

use vstd::prelude::*;
use vstd::utf8::{encode_utf8, encode_utf8_decode_utf8, is_ascii_chars};

verus! {

/// The pieces of `s` between the occurrences of `separator`, in order. There is
/// always one piece more than there are separators.
pub open spec fn pieces(s: Seq<char>, separator: char) -> Seq<Seq<char>>
    decreases s.len(),
{
    if s.len() == 0 {
        seq![Seq::<char>::empty()]
    } else {
        let before = pieces(s.drop_last(), separator);
        if s.last() == separator {
            before.push(Seq::<char>::empty())
        } else {
            before.drop_last().push(before.last().push(s.last()))
        }
    }
}

/// The texts in `parts`, one after another, with `glue` between neighbours.
pub open spec fn joined(parts: Seq<Seq<char>>, glue: Seq<char>) -> Seq<char>
    decreases parts.len(),
{
    if parts.len() == 0 {
        Seq::<char>::empty()
    } else if parts.len() == 1 {
        parts.first()
    } else {
        joined(parts.drop_last(), glue) + glue + parts.last()
    }
}

/// The texts that a list of strings holds.
pub open spec fn texts(strings: Seq<String>) -> Seq<Seq<char>> {
    strings.map_values(|s: String| s@)
}

/// What an optional string holds.
pub open spec fn optional_text(s: Option<String>) -> Option<Seq<char>> {
    match s {
        Some(text) => Some(text@),
        None => None,
    }
}

/// What an optional string slice holds.
pub open spec fn optional_str(s: Option<&str>) -> Option<Seq<char>> {
    match s {
        Some(text) => Some(text@),
        None => None,
    }
}

/// The characters with the Unicode property `White_Space`.
pub open spec fn is_white_space(c: char) -> bool {
    ||| '\u{9}' <= c <= '\u{d}'
    ||| c == '\u{20}'
    ||| c == '\u{85}'
    ||| c == '\u{a0}'
    ||| c == '\u{1680}'
    ||| '\u{2000}' <= c <= '\u{200a}'
    ||| c == '\u{2028}'
    ||| c == '\u{2029}'
    ||| c == '\u{202f}'
    ||| c == '\u{205f}'
    ||| c == '\u{3000}'
}

/// `s` without its leading white space.
pub open spec fn trimmed_start(s: Seq<char>) -> Seq<char>
    decreases s.len(),
{
    if s.len() > 0 && is_white_space(s.first()) {
        trimmed_start(s.drop_first())
    } else {
        s
    }
}

/// `s` without its trailing white space.
pub open spec fn trimmed_end(s: Seq<char>) -> Seq<char>
    decreases s.len(),
{
    if s.len() > 0 && is_white_space(s.last()) {
        trimmed_end(s.drop_last())
    } else {
        s
    }
}

/// `s` without the white space at its two ends.
pub open spec fn trimmed(s: Seq<char>) -> Seq<char> {
    trimmed_end(trimmed_start(s))
}

/// `str::trim` of std: the slice without leading and trailing white space, where
/// white space is the Unicode property `White_Space`.
pub assume_specification[ str::trim ](s: &str) -> (r: &str)
    ensures
        r@ == trimmed(s@),
;

/// The lower case of one ASCII character.
pub open spec fn ascii_lower(c: char) -> char {
    if 'A' <= c <= 'Z' {
        (c as u32 + 32) as char
    } else {
        c
    }
}

/// What `str::to_lowercase` of std gives for a text that is not all ASCII.
pub uninterp spec fn unicode_lowercase(s: Seq<char>) -> Seq<char>;

/// The lower case of a text: letter by letter where it is all ASCII, and by the
/// Unicode mapping that std applies where it is not.
pub open spec fn lowercase(s: Seq<char>) -> Seq<char> {
    if is_ascii_chars(s) {
        s.map_values(|c: char| ascii_lower(c))
    } else {
        unicode_lowercase(s)
    }
}

/// `str::to_lowercase` of std: the lower-case equivalent by the Unicode mapping.
/// On ASCII text that maps `A` to `Z` to `a` to `z` and keeps all else; on other
/// text the result has a name. Every character is mapped to one or more, so that
/// only the empty text has an empty lower case. Left unsaid is whether the lower
/// case of a text that is not ASCII stays the same when it is put in lower case again,
/// and which characters it holds.
pub assume_specification[ str::to_lowercase ](s: &str) -> (r: String)
    ensures
        is_ascii_chars(s@) ==> r@ == s@.map_values(|c: char| ascii_lower(c)),
        !is_ascii_chars(s@) ==> r@ == unicode_lowercase(s@),
        s@.len() > 0 ==> r@.len() > 0,
;

/// `String::push` of std: appends one character.
pub assume_specification[ String::push ](s: &mut String, c: char)
    ensures
        final(s)@ == old(s)@.push(c),
;

/// The decimal numeral of `n`, without leading zeros.
pub open spec fn decimal(n: nat) -> Seq<char>
    decreases n,
{
    if n < 10 {
        seq![digit(n)]
    } else {
        decimal(n / 10).push(digit(n % 10))
    }
}

/// The character of a digit below ten.
pub open spec fn digit(d: nat) -> char {
    (48 + d) as char
}

/// The decimal numeral of an integer, with a minus sign where it is negative.
pub open spec fn signed_decimal(n: int) -> Seq<char> {
    if n < 0 {
        seq!['-'] + decimal((-n) as nat)
    } else {
        decimal(n as nat)
    }
}

/// Cutting a text at a separator and joining the pieces with it gives the text
/// back, and no piece holds the separator.
pub proof fn lemma_pieces_joined(s: Seq<char>, separator: char)
    ensures
        pieces(s, separator).len() >= 1,
        joined(pieces(s, separator), seq![separator]) == s,
        forall|i: int|
            0 <= i < pieces(s, separator).len() ==> !(#[trigger] pieces(s, separator)[i]).contains(
                separator,
            ),
    decreases s.len(),
{
    reveal_with_fuel(joined, 2);
    let all = pieces(s, separator);
    if s.len() > 0 {
        let before = pieces(s.drop_last(), separator);
        lemma_pieces_joined(s.drop_last(), separator);
        if s.last() == separator {
            assert(all.drop_last() =~= before);
            assert(joined(all, seq![separator]) =~= s);
        } else {
            assert(all.drop_last() =~= before.drop_last());
            assert(joined(all, seq![separator]) =~= joined(before, seq![separator]).push(s.last()));
            assert(joined(all, seq![separator]) =~= s);
            assert(!before[before.len() - 1].contains(separator));
            assert(!all.last().contains(separator)) by {
                if all.last().contains(separator) {
                    let j = all.last().index_of(separator);
                    assert(j < before.last().len());
                    assert(before.last()[j] == separator);
                }
            }
            assert forall|i: int| 0 <= i < all.len() implies !(#[trigger] all[i]).contains(
                separator,
            ) by {
                if i < before.len() - 1 {
                    assert(all[i] == before[i]);
                }
            }
        }
    }
}

/// Whether two strings hold the same text.
pub fn same_text(a: &str, b: &str) -> (same: bool)
    ensures
        same == (a@ == b@),
{
    proof {
        encode_utf8_decode_utf8(a@);
        encode_utf8_decode_utf8(b@);
    }
    let left = a.as_bytes();
    let right = b.as_bytes();
    if left.len() != right.len() {
        return false;
    }
    let mut i: usize = 0;
    while i < left.len()
        invariant
            left@.len() == right@.len(),
            left@ == encode_utf8(a@),
            right@ == encode_utf8(b@),
            i <= left@.len(),
            forall|j: int| 0 <= j < i ==> left@[j] == right@[j],
        decreases left@.len() - i,
    {
        if left[i] != right[i] {
            return false;
        }
        i = i + 1;
    }
    assert(left@ =~= right@);
    true
}

/// The characters of a string.
pub fn chars_of(s: &str) -> (chars: Vec<char>)
    ensures
        chars@ == s@,
{
    let mut chars: Vec<char> = Vec::new();
    for c in it: s.chars()
        invariant
            it.seq() == s@,
            chars@ == s@.take(it.index()),
    {
        chars.push(c);
        assert(s@.take(it.index() + 1) =~= s@.take(it.index()).push(c));
    }
    assert(s@.take(s@.len() as int) =~= s@);
    chars
}

/// Cuts a string at every occurrence of `separator`.
pub fn split_at_char(s: &str, separator: char) -> (parts: Vec<String>)
    ensures
        texts(parts@) == pieces(s@, separator),
{
    let chars = chars_of(s);
    let mut parts: Vec<String> = Vec::new();
    let mut current = String::new();
    let mut i: usize = 0;
    assert(texts(parts@).push(current@) =~= pieces(s@.take(0), separator));
    while i < chars.len()
        invariant
            chars@ == s@,
            i <= chars@.len(),
            texts(parts@).push(current@) == pieces(s@.take(i as int), separator),
        decreases chars@.len() - i,
    {
        let c = chars[i];
        let ghost shorter = pieces(s@.take(i as int), separator);
        assert(s@.take(i + 1).drop_last() =~= s@.take(i as int));
        if c == separator {
            parts.push(current);
            current = String::new();
            assert(texts(parts@) =~= shorter);
        } else {
            current.push(c);
            assert(shorter.drop_last() =~= texts(parts@));
        }
        i = i + 1;
    }
    assert(s@.take(s@.len() as int) =~= s@);
    let ghost done = texts(parts@).push(current@);
    parts.push(current);
    assert(texts(parts@) =~= done);
    parts
}

/// Joins strings, with `glue` between neighbours.
pub fn join_strings(parts: &[String], glue: &str) -> (whole: String)
    ensures
        whole@ == joined(texts(parts@), glue@),
{
    let mut whole = String::new();
    let ghost all = texts(parts@);
    let mut i: usize = 0;
    while i < parts.len()
        invariant
            all == texts(parts@),
            i <= parts@.len(),
            whole@ == joined(all.take(i as int), glue@),
        decreases parts@.len() - i,
    {
        assert(all.take(i + 1).drop_last() =~= all.take(i as int));
        if i > 0 {
            whole.append(glue);
        }
        whole.append(parts[i].as_str());
        assert(whole@ =~= joined(all.take(i + 1), glue@));
        i = i + 1;
    }
    assert(all.take(all.len() as int) =~= all);
    whole
}

/// Writes `n` as a decimal numeral.
pub fn decimal_text(n: u64) -> (numeral: String)
    ensures
        numeral@ == decimal(n as nat),
    decreases n,
{
    let mut numeral = if n < 10 {
        String::new()
    } else {
        decimal_text(n / 10)
    };
    let d: u8 = (n % 10) as u8;
    numeral.push((48 + d) as char);
    assert(numeral@ =~= decimal(n as nat));
    numeral
}

/// Two texts, one after the other.
pub fn concat2(a: &str, b: &str) -> (whole: String)
    ensures
        whole@ == a@ + b@,
{
    let mut whole = String::new();
    whole.append(a);
    whole.append(b);
    assert(whole@ =~= a@ + b@);
    whole
}

/// Three texts, one after another.
pub fn concat3(a: &str, b: &str, c: &str) -> (whole: String)
    ensures
        whole@ == a@ + b@ + c@,
{
    let mut whole = concat2(a, b);
    whole.append(c);
    whole
}

/// Without its leading white space a text is empty or opens with something else.
proof fn lemma_trimmed_start(s: Seq<char>) -> (from: int)
    ensures
        0 <= from <= s.len(),
        trimmed_start(s) == s.skip(from),
        trimmed_start(s).len() > 0 ==> !is_white_space(trimmed_start(s).first()),
        forall|i: int| 0 <= i < from ==> is_white_space(#[trigger] s[i]),
    decreases s.len(),
{
    if s.len() > 0 && is_white_space(s.first()) {
        let from = lemma_trimmed_start(s.drop_first());
        assert(s.drop_first().skip(from) =~= s.skip(from + 1));
        assert forall|i: int| 0 <= i < from + 1 implies is_white_space(#[trigger] s[i]) by {
            if i > 0 {
                assert(s.drop_first()[i - 1] == s[i]);
            }
        }
        from + 1
    } else {
        assert(s.skip(0) =~= s);
        0
    }
}

/// Without its trailing white space a text is empty or closes with something else,
/// and what it opens with stays.
proof fn lemma_trimmed_end(s: Seq<char>) -> (to: int)
    ensures
        0 <= to <= s.len(),
        trimmed_end(s) == s.take(to),
        trimmed_end(s).len() > 0 ==> !is_white_space(trimmed_end(s).last()),
        forall|i: int| to <= i < s.len() ==> is_white_space(#[trigger] s[i]),
    decreases s.len(),
{
    if s.len() > 0 && is_white_space(s.last()) {
        let to = lemma_trimmed_end(s.drop_last());
        assert(s.drop_last().take(to) =~= s.take(to));
        assert forall|i: int| to <= i < s.len() implies is_white_space(#[trigger] s[i]) by {
            if i < s.len() - 1 {
                assert(s.drop_last()[i] == s[i]);
            }
        }
        to
    } else {
        assert(s.take(s.len() as int) =~= s);
        s.len() as int
    }
}

/// A trimmed text is a stretch of the text, with no white space at its ends and
/// nothing but white space outside it.
pub proof fn lemma_trimmed(s: Seq<char>) -> (range: (int, int))
    ensures
        0 <= range.0 <= range.1 <= s.len(),
        trimmed(s) == s.subrange(range.0, range.1),
        trimmed(s).len() > 0 ==> !is_white_space(trimmed(s).first()) && !is_white_space(
            trimmed(s).last(),
        ),
        forall|i: int|
            0 <= i < s.len() && !(range.0 <= i < range.1) ==> is_white_space(#[trigger] s[i]),
{
    let from = lemma_trimmed_start(s);
    let to = lemma_trimmed_end(trimmed_start(s));
    assert forall|i: int| 0 <= i < s.len() && !(from <= i < from + to) implies is_white_space(
        #[trigger] s[i],
    ) by {
        if i >= from {
            assert(s.skip(from)[i - from] == s[i]);
        }
    }
    assert(s.skip(from).take(to) =~= s.subrange(from, from + to));
    (from, from + to)
}

/// A text with no white space at its ends is trimmed already.
pub proof fn lemma_trimmed_already(s: Seq<char>)
    requires
        s.len() > 0 ==> !is_white_space(s.first()) && !is_white_space(s.last()),
    ensures
        trimmed(s) == s,
{
}

/// Trimming a trimmed text changes nothing.
pub proof fn law_trimmed_is_idempotent(s: Seq<char>)
    ensures
        trimmed(trimmed(s)) == trimmed(s),
{
    lemma_trimmed(s);
    lemma_trimmed_already(trimmed(s));
}

/// The lower case of an ASCII text is ASCII, holds no capital letter, and is its
/// own lower case.
pub proof fn law_ascii_lowercase(s: Seq<char>)
    requires
        is_ascii_chars(s),
    ensures
        is_ascii_chars(lowercase(s)),
        lowercase(s).len() == s.len(),
        forall|i: int| 0 <= i < s.len() ==> #[trigger] lowercase(s)[i] == ascii_lower(s[i]),
        lowercase(lowercase(s)) == lowercase(s),
{
    let lower = lowercase(s);
    assert forall|i: int| 0 <= i < lower.len() implies '\0' <= #[trigger] lower[i] <= '\u{7f}' by {
        assert('\0' <= s[i] <= '\u{7f}');
    }
    assert(lowercase(lower) =~= lower);
}

/// Cutting joined texts at the glue gives the texts back, where none of them holds
/// the glue.
pub proof fn law_joined_pieces(parts: Seq<Seq<char>>, separator: char)
    requires
        parts.len() > 0,
        forall|i: int| 0 <= i < parts.len() ==> !(#[trigger] parts[i]).contains(separator),
    ensures
        pieces(joined(parts, seq![separator]), separator) == parts,
    decreases parts.len(),
{
    reveal_with_fuel(joined, 2);
    assert(!parts[parts.len() - 1].contains(separator));
    if parts.len() == 1 {
        lemma_pieces_append(Seq::empty(), parts[0], separator);
        assert(Seq::<char>::empty() + parts[0] =~= parts[0]);
        assert(pieces(Seq::empty(), separator) =~= seq![Seq::<char>::empty()]);
        assert(pieces(parts[0], separator) =~= parts);
    } else {
        let before = parts.drop_last();
        assert forall|i: int| 0 <= i < before.len() implies !(#[trigger] before[i]).contains(
            separator,
        ) by {
            assert(before[i] == parts[i]);
        }
        law_joined_pieces(before, separator);
        let glued = joined(before, seq![separator]) + seq![separator];
        assert(glued.drop_last() =~= joined(before, seq![separator]));
        assert(pieces(glued, separator) == before.push(Seq::empty()));
        lemma_pieces_append(glued, parts.last(), separator);
        assert(before.push(Seq::<char>::empty()).drop_last() =~= before);
        assert(Seq::<char>::empty() + parts.last() =~= parts.last());
        assert(before.push(parts.last()) =~= parts);
    }
}

/// The pieces of two texts with the separator between them are those of the first
/// and then those of the second.
pub proof fn law_pieces_in_a_row(a: Seq<char>, b: Seq<char>, separator: char)
    ensures
        pieces(a + seq![separator] + b, separator) == pieces(a, separator) + pieces(b, separator),
    decreases b.len(),
{
    let whole = a + seq![separator] + b;
    if b.len() == 0 {
        assert(whole.drop_last() =~= a);
        assert(pieces(whole, separator) =~= pieces(a, separator) + pieces(b, separator));
    } else {
        let less = b.drop_last();
        law_pieces_in_a_row(a, less, separator);
        lemma_pieces_joined(less, separator);
        assert(whole.drop_last() =~= a + seq![separator] + less);
        assert(pieces(whole, separator) =~= pieces(a, separator) + pieces(b, separator));
    }
}

/// A text without the separator is its only piece.
pub proof fn law_single_piece(s: Seq<char>, separator: char)
    requires
        !s.contains(separator),
    ensures
        pieces(s, separator) == seq![s],
{
    lemma_pieces_append(Seq::empty(), s, separator);
    assert(Seq::<char>::empty() + s =~= s);
    assert(pieces(s, separator) =~= seq![s]);
}

/// Text without the separator makes the last piece longer.
proof fn lemma_pieces_append(s: Seq<char>, more: Seq<char>, separator: char)
    requires
        !more.contains(separator),
    ensures
        pieces(s, separator).len() > 0,
        pieces(s + more, separator) == pieces(s, separator).drop_last().push(
            pieces(s, separator).last() + more,
        ),
    decreases more.len(),
{
    lemma_pieces_joined(s, separator);
    let old_pieces = pieces(s, separator);
    if more.len() == 0 {
        assert(s + more =~= s);
        assert(old_pieces.last() + more =~= old_pieces.last());
        assert(old_pieces.drop_last().push(old_pieces.last()) =~= old_pieces);
    } else {
        let less = more.drop_last();
        assert(!less.contains(separator)) by {
            if less.contains(separator) {
                let i = less.index_of(separator);
                assert(more[i] == separator);
            }
        }
        assert(more.contains(more.last()));
        lemma_pieces_append(s, less, separator);
        assert((s + more).drop_last() =~= s + less);
        let before = pieces(s + less, separator);
        assert(before.drop_last() =~= old_pieces.drop_last());
        assert(before.last().push(more.last()) =~= old_pieces.last() + more);
    }
}

/// Joining nothing gives nothing, and joining one text gives that text.
pub proof fn law_joined_one(one: Seq<char>, glue: Seq<char>)
    ensures
        joined(Seq::empty(), glue) == Seq::<char>::empty(),
        joined(seq![one], glue) == one,
{
}

/// Two lists, joined as one, are the first joined, the glue, and the second joined.
pub proof fn law_joined_in_a_row(a: Seq<Seq<char>>, b: Seq<Seq<char>>, glue: Seq<char>)
    requires
        a.len() > 0,
        b.len() > 0,
    ensures
        joined(a + b, glue) == joined(a, glue) + glue + joined(b, glue),
    decreases b.len(),
{
    if b.len() == 1 {
        assert((a + b).drop_last() =~= a);
    } else {
        law_joined_in_a_row(a, b.drop_last(), glue);
        assert((a + b).drop_last() =~= a + b.drop_last());
        assert(joined(a + b, glue) =~= joined(a, glue) + glue + joined(b, glue));
    }
}

/// A list of strings holds the texts of the strings, one by one.
pub proof fn law_texts_one_by_one(strings: Seq<String>)
    ensures
        texts(strings).len() == strings.len(),
        forall|i: int| 0 <= i < strings.len() ==> #[trigger] texts(strings)[i] == strings[i]@,
{
}

/// The number that a numeral stands for, each digit counting ten times the next.
pub open spec fn numeral_value(numeral: Seq<char>) -> int
    decreases numeral.len(),
{
    if numeral.len() == 0 {
        0
    } else {
        10 * numeral_value(numeral.drop_last()) + (numeral.last() as int - '0' as int)
    }
}

/// A numeral is made of digits, opens with zero only where it is that of zero, and
/// stands for its number.
pub proof fn law_numeral_reads_back(n: nat)
    ensures
        decimal(n).len() > 0,
        forall|i: int| 0 <= i < decimal(n).len() ==> '0' <= #[trigger] decimal(n)[i] <= '9',
        decimal(n).first() == '0' ==> n == 0 && decimal(n).len() == 1,
        numeral_value(decimal(n)) == n,
    decreases n,
{
    reveal_with_fuel(numeral_value, 2);
    if n >= 10 {
        law_numeral_reads_back(n / 10);
        assert(decimal(n).drop_last() =~= decimal(n / 10));
        assert(decimal(n).first() == decimal(n / 10).first());
    }
}

/// The numeral of a negative number is a minus sign and the numeral of its absolute
/// value.
pub proof fn law_signed_numeral_reads_back(n: int)
    ensures
        n >= 0 ==> numeral_value(signed_decimal(n)) == n && signed_decimal(n).first() != '-',
        n < 0 ==> signed_decimal(n).len() > 1 && signed_decimal(n).first() == '-' && numeral_value(
            signed_decimal(n).drop_first(),
        ) == -n,
{
    if n >= 0 {
        law_numeral_reads_back(n as nat);
    } else {
        law_numeral_reads_back((-n) as nat);
        assert(signed_decimal(n).drop_first() =~= decimal((-n) as nat));
    }
}

/// Lower case is by the letter in an ASCII text: capitals become the letters thirty-two
/// places on, and all else stays. In any other text it is what std makes of it.
pub proof fn law_lowercase_by_the_letter(s: Seq<char>, i: int)
    requires
        0 <= i < s.len(),
    ensures
        is_ascii_chars(s) && 'A' <= s[i] <= 'Z' ==> lowercase(s)[i] as int == s[i] as int + 32,
        is_ascii_chars(s) && !('A' <= s[i] <= 'Z') ==> lowercase(s)[i] == s[i],
        !is_ascii_chars(s) ==> lowercase(s) == unicode_lowercase(s),
{
}

/// An optional string holds a text exactly where it is there.
pub proof fn law_optional_texts(owned: Option<String>, borrowed: Option<&str>)
    ensures
        owned is None <==> optional_text(owned) is None,
        owned matches Some(s) ==> optional_text(owned) == Some(s@),
        borrowed is None <==> optional_str(borrowed) is None,
        borrowed matches Some(s) ==> optional_str(borrowed) == Some(s@),
{
}

} // verus!
