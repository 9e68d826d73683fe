//! Small verified helpers on text: equality, prefixes and suffixes, and the
//! byte-wise order by which names are sorted.

use vstd::prelude::*;
use vstd::utf8::{encode_utf8, encode_utf8_decode_utf8};

verus! {

/// Two texts with the same UTF-8 encoding are the same text.
pub proof fn lemma_encoding_is_injective(a: Seq<char>, b: Seq<char>)
    requires
        encode_utf8(a) == encode_utf8(b),
    ensures
        a == b,
{
    encode_utf8_decode_utf8(a);
    encode_utf8_decode_utf8(b);
}

/// Whether two byte slices hold the same bytes.
pub fn bytes_eq(a: &[u8], b: &[u8]) -> (same: bool)
    ensures
        same == (a@ == b@),
{
    if a.len() != b.len() {
        return false;
    }
    let mut i: usize = 0;
    while i < a.len()
        invariant
            a@.len() == b@.len(),
            i <= a@.len(),
            forall|k: int| 0 <= k < i ==> a@[k] == b@[k],
        decreases a@.len() - i,
    {
        if a[i] != b[i] {
            return false;
        }
        i += 1;
    }
    assert(a@ =~= b@);
    true
}

/// Whether two texts are the same text.
pub fn text_eq(a: &str, b: &str) -> (same: bool)
    ensures
        same == (a@ == b@),
{
    let same = bytes_eq(a.as_bytes(), b.as_bytes());
    proof {
        if same {
            lemma_encoding_is_injective(a@, b@);
        }
    }
    same
}

/// The texts of `parts` in order, with `sep` between each two neighbours.
pub open spec fn joined(parts: Seq<Seq<char>>, sep: Seq<char>) -> Seq<char>
    decreases parts.len(),
{
    if parts.len() == 0 {
        Seq::empty()
    } else if parts.len() == 1 {
        parts[0]
    } else {
        joined(parts.drop_last(), sep) + sep + parts.last()
    }
}

/// Joins texts with a separator between each two neighbours.
pub fn join(parts: &Vec<String>, sep: &str) -> (text: String)
    ensures
        text@ == joined(parts.deep_view(), sep@),
{
    let mut text = String::new();
    let mut i: usize = 0;
    while i < parts.len()
        invariant
            i <= parts.len(),
            text@ == joined(parts.deep_view().take(i as int), sep@),
        decreases parts.len() - i,
    {
        proof {
            let before = parts.deep_view().take(i as int);
            let after = parts.deep_view().take(i + 1);
            assert(after.drop_last() =~= before);
            assert(after.last() == parts[i as int]@);
            assert(Seq::<char>::empty() + parts[i as int]@ =~= parts[i as int]@);
        }
        if i > 0 {
            text.append(sep);
        }
        text.append(parts[i].as_str());
        i += 1;
    }
    assert(parts.deep_view().take(parts.len() as int) =~= parts.deep_view());
    text
}

/// The index of the first `mark` in `text`, or the length of `text` if it
/// holds none.
pub open spec fn first_index(text: Seq<char>, mark: char) -> int
    decreases text.len(),
{
    if text.len() == 0 {
        0
    } else if text[0] == mark {
        0
    } else {
        1 + first_index(text.drop_first(), mark)
    }
}

/// `first_index` is in range, points at a `mark` unless it is the length, and
/// no `mark` stands before it.
pub proof fn lemma_first_index(text: Seq<char>, mark: char)
    ensures
        0 <= first_index(text, mark) <= text.len(),
        first_index(text, mark) < text.len() ==> text[first_index(text, mark)] == mark,
        forall|k: int| 0 <= k < first_index(text, mark) ==> text[k] != mark,
    decreases text.len(),
{
    if text.len() > 0 && text[0] != mark {
        let rest = text.drop_first();
        lemma_first_index(rest, mark);
        assert forall|k: int| 0 <= k < first_index(text, mark) implies text[k] != mark by {
            if k > 0 {
                assert(text[k] == rest[k - 1]);
            }
        }
    }
}

/// The first index at or after `from` whose character is `mark`, or the length
/// of the text.
pub(crate) fn find_from(text: &str, from: usize, mark: char) -> (at: usize)
    requires
        from <= text@.len(),
    ensures
        at == from + first_index(text@.skip(from as int), mark),
        from <= at <= text@.len(),
{
    let len = text.unicode_len();
    let mut at = from;
    while at < len && text.get_char(at) != mark
        invariant
            len == text@.len(),
            from <= at <= len,
            first_index(text@.skip(from as int), mark) == (at - from) + first_index(
                text@.skip(at as int),
                mark,
            ),
        decreases len - at,
    {
        proof {
            let here = text@.skip(at as int);
            assert(here[0] == text@[at as int]);
            assert(here.drop_first() =~= text@.skip(at + 1));
        }
        at += 1;
    }
    proof {
        let here = text@.skip(at as int);
        if at < len {
            assert(here[0] == text@[at as int]);
        } else {
            assert(here.len() == 0);
        }
    }
    at
}

/// The place of the first `mark` is the only place with a `mark` and none
/// before it; the length is that place if the text holds no `mark`.
pub proof fn lemma_first_index_is(text: Seq<char>, mark: char, at: int)
    requires
        0 <= at <= text.len(),
        forall|k: int| 0 <= k < at ==> text[k] != mark,
        at < text.len() ==> text[at] == mark,
    ensures
        first_index(text, mark) == at,
{
    lemma_first_index(text, mark);
}

/// The pieces of `text` between each two neighbouring `mark`s, and before the
/// first and after the last: one piece more than there are `mark`s.
pub open spec fn split(text: Seq<char>, mark: char) -> Seq<Seq<char>>
    decreases text.len(),
{
    let at = first_index(text, mark);
    if 0 <= at < text.len() {
        seq![text.take(at)] + split(text.skip(at + 1), mark)
    } else {
        seq![text]
    }
}

/// Splits a text at every `mark`.
pub fn split_at_mark(text: &str, mark: char) -> (pieces: Vec<String>)
    ensures
        pieces.deep_view() == split(text@, mark),
{
    let len = text.unicode_len();
    let mut pieces: Vec<String> = Vec::new();
    let mut from: usize = 0;
    assert(pieces.deep_view() =~= Seq::<Seq<char>>::empty());
    assert(text@.skip(0) =~= text@);
    loop
        invariant
            len == text@.len(),
            from <= len,
            split(text@, mark) == pieces.deep_view() + split(text@.skip(from as int), mark),
        decreases len - from,
    {
        let at = find_from(text, from, mark);
        let piece = String::from_str(text.substring_char(from, at));
        let ghost rest = text@.skip(from as int);
        let ghost before = pieces.deep_view();
        proof {
            lemma_first_index(rest, mark);
            assert(rest.take(at - from) =~= text@.subrange(from as int, at as int));
        }
        pieces.push(piece);
        assert(pieces.deep_view() =~= before.push(piece@));
        if at >= len {
            proof {
                assert(rest.take(at - from) =~= rest);
                assert(before + seq![rest] =~= before.push(rest));
            }
            return pieces;
        }
        proof {
            assert(rest.skip(at - from + 1) =~= text@.skip(at + 1));
            assert(before + (seq![rest.take(at - from)] + split(text@.skip(at + 1), mark))
                =~= before.push(piece@) + split(text@.skip(at + 1), mark));
        }
        from = at + 1;
    }
}

/// The order of byte strings by their first difference; a proper prefix
/// comes first.
pub open spec fn bytes_le(a: Seq<u8>, b: Seq<u8>) -> bool
    decreases a.len(),
{
    if a.len() == 0 {
        true
    } else if b.len() == 0 {
        false
    } else if a[0] != b[0] {
        a[0] < b[0]
    } else {
        bytes_le(a.drop_first(), b.drop_first())
    }
}

/// The order of texts by the bytes of their UTF-8 encoding: the order that
/// the standard library gives to strings.
pub open spec fn text_le(a: Seq<char>, b: Seq<char>) -> bool {
    bytes_le(encode_utf8(a), encode_utf8(b))
}

/// Of two byte strings, one comes before the other or they change places.
pub proof fn lemma_bytes_le_total(a: Seq<u8>, b: Seq<u8>)
    ensures
        bytes_le(a, b) || bytes_le(b, a),
    decreases a.len(),
{
    if a.len() > 0 && b.len() > 0 && a[0] == b[0] {
        lemma_bytes_le_total(a.drop_first(), b.drop_first());
    }
}

/// The order of byte strings is transitive.
pub proof fn lemma_bytes_le_transitive(a: Seq<u8>, b: Seq<u8>, c: Seq<u8>)
    requires
        bytes_le(a, b),
        bytes_le(b, c),
    ensures
        bytes_le(a, c),
    decreases a.len(),
{
    if a.len() > 0 && b.len() > 0 && c.len() > 0 && a[0] == b[0] && b[0] == c[0] {
        lemma_bytes_le_transitive(a.drop_first(), b.drop_first(), c.drop_first());
    }
}

/// Whether one byte string comes before another or equals it.
pub fn bytes_precede(a: &[u8], b: &[u8]) -> (le: bool)
    ensures
        le == bytes_le(a@, b@),
{
    let mut i: usize = 0;
    assert(a@.skip(0) =~= a@ && b@.skip(0) =~= b@);
    while i < a.len() && i < b.len()
        invariant
            i <= a@.len(),
            i <= b@.len(),
            bytes_le(a@, b@) == bytes_le(a@.skip(i as int), b@.skip(i as int)),
        decreases a@.len() - i,
    {
        proof {
            assert(a@.skip(i as int)[0] == a@[i as int]);
            assert(b@.skip(i as int)[0] == b@[i as int]);
            assert(a@.skip(i as int).drop_first() =~= a@.skip(i + 1));
            assert(b@.skip(i as int).drop_first() =~= b@.skip(i + 1));
        }
        if a[i] != b[i] {
            return a[i] < b[i];
        }
        i += 1;
    }
    i >= a.len()
}

/// Whether one text comes before another or equals it, in the order of the
/// bytes of their UTF-8 encoding.
pub fn text_precedes(a: &str, b: &str) -> (le: bool)
    ensures
        le == text_le(a@, b@),
{
    bytes_precede(a.as_bytes(), b.as_bytes())
}

/// Whether a text ends in a suffix.
pub fn ends_with(text: &str, suffix: &str) -> (ends: bool)
    ensures
        ends == suffix@.is_suffix_of(text@),
{
    let len = text.unicode_len();
    let tail = suffix.unicode_len();
    if tail > len {
        return false;
    }
    text_eq(text.substring_char(len - tail, len), suffix)
}

/// A text without a `mark` is its own single piece.
pub proof fn lemma_split_unmarked(text: Seq<char>, mark: char)
    requires
        !text.contains(mark),
    ensures
        split(text, mark) == seq![text],
{
    lemma_first_index(text, mark);
    if first_index(text, mark) < text.len() {
        assert(text.contains(text[first_index(text, mark)]));
    }
}

/// A `mark` and a text without one, put behind a text, add that text as one
/// more piece.
pub proof fn lemma_split_append(text: Seq<char>, last: Seq<char>, mark: char)
    requires
        !last.contains(mark),
    ensures
        split(text + seq![mark] + last, mark) == split(text, mark).push(last),
    decreases text.len(),
{
    let whole = text + seq![mark] + last;
    let at = first_index(text, mark);
    lemma_first_index(text, mark);
    assert forall|k: int| 0 <= k < at implies whole[k] != mark by {
        assert(whole[k] == text[k]);
    }
    if at < text.len() {
        assert(whole[at] == text[at]);
        lemma_first_index_is(whole, mark, at);
        let rest = text.skip(at + 1);
        lemma_split_append(rest, last, mark);
        assert(whole.skip(at + 1) =~= rest + seq![mark] + last);
        assert(whole.take(at) =~= text.take(at));
        assert(seq![text.take(at)] + split(rest, mark).push(last) =~= (seq![text.take(at)]
            + split(rest, mark)).push(last));
    } else {
        assert(whole[at] == mark);
        lemma_first_index_is(whole, mark, at);
        assert(whole.take(at) =~= text);
        assert(whole.skip(at + 1) =~= last);
        lemma_split_unmarked(last, mark);
        assert(seq![text] + seq![last] =~= seq![text].push(last));
    }
}

} // verus!
