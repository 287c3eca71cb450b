use vstd::prelude::*;
use vstd::string::StringSliceAdditionalSpecFns;
use vstd::utf8::{decode_utf8, encode_utf8, is_char_boundary};

verus! {

broadcast use {
    vstd::string::group_string_axioms,
    vstd::utf8::encode_utf8_valid_utf8,
    vstd::utf8::encode_utf8_decode_utf8,
};

/// A byte with ASCII upper-case letters turned into lower case.
pub open spec fn ascii_lower_byte(b: u8) -> u8 {
    if 0x41 <= b && b <= 0x5a {
        (b + 0x20) as u8
    } else {
        b
    }
}

/// A character with ASCII upper-case letters turned into lower case; every
/// other character is left as it is.
pub open spec fn ascii_lower(c: char) -> char {
    if 'A' <= c && c <= 'Z' {
        ((c as u32) + 32) as char
    } else {
        c
    }
}

/// A character with ASCII lower-case letters turned into upper case; every
/// other character is left as it is.
pub open spec fn ascii_upper(c: char) -> char {
    if 'a' <= c && c <= 'z' {
        ((c as u32) - 32) as char
    } else {
        c
    }
}

/// Two byte strings are equal when ASCII letters are compared without case.
pub open spec fn eq_ignore_ascii_case(a: Seq<u8>, b: Seq<u8>) -> bool {
    &&& a.len() == b.len()
    &&& forall|i: int| 0 <= i < a.len() ==> #[trigger] ascii_lower_byte(a[i]) == ascii_lower_byte(b[i])
}

/// The query (`query`, as characters) occurs at byte `offset` of `text` (as
/// UTF-8 bytes), ending no later than `end`: both ends of the occurrence are
/// character boundaries, and its bytes equal the query's bytes up to ASCII
/// case.
pub open spec fn is_match_at(text: Seq<u8>, end: int, query: Seq<char>, offset: int) -> bool {
    let q = encode_utf8(query);
    &&& query.len() > 0
    &&& 0 <= offset
    &&& offset + q.len() <= end
    &&& is_char_boundary(text, offset)
    &&& is_char_boundary(text, offset + q.len())
    &&& eq_ignore_ascii_case(text.subrange(offset, offset + q.len()), q)
}

/// The character that starts at byte `at` of `text`, if `at` is a character
/// boundary inside the text.
pub open spec fn char_at_byte(text: Seq<u8>, at: int) -> Option<char> {
    if 0 <= at < text.len() && is_char_boundary(text, at) {
        Some(decode_utf8(text.subrange(at, text.len() as int))[0])
    } else {
        None
    }
}

/// An occurrence of the query in a text.
#[derive(Clone, Copy, Debug, PartialEq, Eq)]
pub struct TextMatch {
    /// Byte offset of the occurrence in the text.
    pub offset: usize,
    /// The character right after the occurrence, if the text goes on.
    pub next_char: Option<char>,
}

/// The text match describes an occurrence at its offset and the character
/// that follows it.
pub open spec fn describes_match(text: &str, end: int, query: &str, m: TextMatch) -> bool {
    &&& is_match_at(text.spec_bytes(), end, query@, m.offset as int)
    &&& m.next_char == char_at_byte(text.spec_bytes(), m.offset + query.spec_bytes().len())
}

fn lower_byte(b: u8) -> (r: u8)
    ensures
        r == ascii_lower_byte(b),
{
    if 0x41 <= b && b <= 0x5a {
        b + 0x20
    } else {
        b
    }
}

/// `char::to_ascii_lowercase`.
pub fn to_ascii_lowercase(c: char) -> (r: char)
    ensures
        r == ascii_lower(c),
{
    if 'A' <= c && c <= 'Z' {
        let b: u8 = c as u8;
        (b + 32) as char
    } else {
        c
    }
}

/// `char::to_ascii_uppercase`.
pub fn to_ascii_uppercase(c: char) -> (r: char)
    ensures
        r == ascii_upper(c),
{
    if 'a' <= c && c <= 'z' {
        let b: u8 = c as u8;
        (b - 32) as char
    } else {
        c
    }
}

/// Compares `query.len()` bytes of `text` from `offset` on with `query`,
/// ignoring ASCII case.
fn eq_ignore_ascii_case_at(text: &[u8], offset: usize, query: &[u8]) -> (r: bool)
    requires
        offset + query@.len() <= text@.len(),
    ensures
        r == eq_ignore_ascii_case(text@.subrange(offset as int, offset + query@.len()), query@),
{
    let n = query.len();
    let text_len = text.len();
    let ghost window = text@.subrange(offset as int, offset + query@.len());
    let mut i: usize = 0;
    while i < n
        invariant
            n == query@.len(),
            text_len == text@.len(),
            i <= n,
            offset + n <= text@.len(),
            window == text@.subrange(offset as int, offset + query@.len()),
            forall|k: int| 0 <= k < i ==> #[trigger] ascii_lower_byte(window[k]) == ascii_lower_byte(query@[k]),
        decreases n - i,
    {
        if lower_byte(text[offset + i]) != lower_byte(query[i]) {
            assert(ascii_lower_byte(window[i as int]) != ascii_lower_byte(query@[i as int]));
            return false;
        }
        i = i + 1;
    }
    true
}

proof fn lemma_nonempty_encoding(s: Seq<char>)
    requires
        encode_utf8(s).len() > 0,
    ensures
        s.len() > 0,
{
    if s.len() == 0 {
        assert(encode_utf8(s) == Seq::<u8>::empty());
    }
}

/// The character of `text` that starts at byte `at`, if there is one there.
fn char_at(text: &str, at: usize) -> (r: Option<char>)
    ensures
        r == char_at_byte(text.spec_bytes(), at as int),
{
    if at < text.as_bytes().len() && text.is_char_boundary(at) {
        let (_, rest) = text.split_at(at);
        proof {
            lemma_nonempty_encoding(rest@);
            assert(decode_utf8(rest.spec_bytes()) == rest@);
        }
        let mut chars = rest.chars();
        chars.next()
    } else {
        None
    }
}

/// The search never reads past the text: the range ends inside it, or the
/// query is empty, or every offset from which the query could still fit
/// before `end` lies inside the text.
pub open spec fn search_in_bounds(text_len: int, start: int, end: int, query_len: int) -> bool {
    ||| end <= text_len
    ||| query_len == 0
    ||| (if start > text_len { start } else { text_len }) + query_len > end
}

/// Whether `find_matches` can search these arguments without reading past the
/// text.
pub fn search_stays_in_text(text: &str, start_offset: usize, end_offset: usize, query: &str) -> (r:
    bool)
    ensures
        r == search_in_bounds(
            text.spec_bytes().len() as int,
            start_offset as int,
            end_offset as int,
            query.spec_bytes().len() as int,
        ),
{
    let text_len = text.as_bytes().len();
    let query_len = query.as_bytes().len();
    if end_offset <= text_len || query_len == 0 {
        return true;
    }
    let from = if start_offset > text_len { start_offset } else { text_len };
    from as u128 + query_len as u128 > end_offset as u128
}

/// Finds every occurrence of `query` in `text` that starts in
/// `start_offset..end_offset` and ends by `end_offset`, comparing ASCII letters
/// without case, in order of offset; each comes with the character that
/// follows it. An empty query has no occurrences. The first byte of each
/// candidate is compared first, up to ASCII case, to skip most offsets
/// quickly.
pub fn find_matches(text: &str, start_offset: usize, end_offset: usize, query: &str) -> (matches:
    Vec<TextMatch>)
    requires
        search_in_bounds(
            text.spec_bytes().len() as int,
            start_offset as int,
            end_offset as int,
            query.spec_bytes().len() as int,
        ),
    ensures
        forall|i: int|
            0 <= i < matches@.len() ==> start_offset <= (#[trigger] matches@[i]).offset < end_offset
                && describes_match(text, end_offset as int, query, matches@[i]),
        forall|i: int, j: int|
            0 <= i < j < matches@.len() ==> (#[trigger] matches@[i]).offset < (#[trigger] matches@[j]).offset,
        forall|o: int|
            start_offset <= o < end_offset && #[trigger] is_match_at(
                text.spec_bytes(),
                end_offset as int,
                query@,
                o,
            ) ==> exists|i: int| 0 <= i < matches@.len() && matches@[i].offset == o,
{
    let mut matches: Vec<TextMatch> = Vec::new();
    let query_len = query.as_bytes().len();
    if query_len == 0 {
        return matches;
    }
    proof {
        lemma_nonempty_encoding(query@);
    }
    let bytes = text.as_bytes();
    let query_bytes = query.as_bytes();
    let query_first_lower = lower_byte(query_bytes[0]);
    let ghost t = text.spec_bytes();
    let ghost end = end_offset as int;

    let mut offset = start_offset;
    while offset < end_offset
        invariant
            query_len == query.spec_bytes().len(),
            query_len > 0,
            query@.len() > 0,
            query_first_lower == ascii_lower_byte(query_bytes@[0]),
            search_in_bounds(t.len() as int, start_offset as int, end_offset as int, query_len as int),
            bytes@ == t,
            t == text.spec_bytes(),
            query_bytes@ == query.spec_bytes(),
            query.spec_bytes() == encode_utf8(query@),
            end == end_offset,
            offset >= start_offset,
            forall|i: int|
                0 <= i < matches@.len() ==> start_offset <= (#[trigger] matches@[i]).offset < offset
                    && describes_match(text, end, query, matches@[i]),
            forall|i: int, j: int|
                0 <= i < j < matches@.len() ==> (#[trigger] matches@[i]).offset < (
                #[trigger] matches@[j]).offset,
            forall|o: int|
                start_offset <= o < offset && #[trigger] is_match_at(t, end, query@, o) ==> exists|
                    i: int,
                | 0 <= i < matches@.len() && matches@[i].offset == o,
        decreases end_offset - offset,
    {
        if query_len > end_offset - offset {
            assert forall|o: int|
                start_offset <= o < end_offset && #[trigger] is_match_at(t, end, query@, o) implies exists|
                    i: int,
                | 0 <= i < matches@.len() && matches@[i].offset == o by {
                if o >= offset {
                    assert(!is_match_at(t, end, query@, o));
                }
            }
            return matches;
        }
        let found = if lower_byte(bytes[offset]) != query_first_lower {
            proof {
                let q = encode_utf8(query@);
                if is_match_at(t, end, query@, offset as int) {
                    let w = t.subrange(offset as int, offset + q.len());
                    assert(ascii_lower_byte(w[0]) == ascii_lower_byte(q[0]));
                    assert(w[0] == t[offset as int]);
                }
            }
            false
        } else if !text.is_char_boundary(offset) || !text.is_char_boundary(offset + query_len) {
            false
        } else {
            eq_ignore_ascii_case_at(bytes, offset, query_bytes)
        };
        assert(found == is_match_at(t, end, query@, offset as int));
        if found {
            let next_char = char_at(text, offset + query_len);
            let ghost before = matches@;
            matches.push(TextMatch { offset, next_char });
            assert forall|o: int|
                start_offset <= o < offset + 1 && #[trigger] is_match_at(t, end, query@, o) implies exists|
                    i: int,
                | 0 <= i < matches@.len() && matches@[i].offset == o by {
                if o < offset {
                    let i = choose|i: int| 0 <= i < before.len() && before[i].offset == o;
                    assert(matches@[i] == before[i]);
                } else {
                    assert(matches@[before.len() as int].offset == o);
                }
            }
        }
        offset = offset + 1;
    }
    matches
}

} // verus!
