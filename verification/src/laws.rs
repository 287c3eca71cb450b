use vstd::prelude::*;
use vstd::utf8::{encode_utf8, is_char_boundary};

use crate::jump_bar::{
    candidate_of, cursor_editor_of, first_typed, has_cursor_editor, label_for, label_typed, may_jump,
    utf8, JumpBar, JumpMatch,
};
use crate::labels::{available_labels, code_follows, forbidden_codes, label_allowed, priority_chars};
use crate::ranking::{
    all_candidates, all_distances_fit, candidate_for, distance_fits, is_stable_sort_by_distance,
    lemma_stable_sort_same_candidates, match_distance_spec, point_distance, DisplayPoint,
    MatchCandidate, PlacedMatch,
};
use crate::text_search::{
    ascii_lower, ascii_lower_byte, ascii_upper, char_at_byte, eq_ignore_ascii_case, is_match_at,
};

verus! {

broadcast use vstd::seq_lib::group_seq_properties;

/// Every label character is ASCII.
pub proof fn law_label_chars_are_ascii()
    ensures
        forall|i: int| 0 <= i < priority_chars().len() ==> ((#[trigger] priority_chars()[i]) as u32) < 128,
{
}

/// No label character comes twice in the priority order.
pub proof fn law_label_chars_distinct()
    ensures
        priority_chars().no_duplicates(),
{
}

proof fn lemma_filter_keeps_no_duplicates(s: Seq<char>, pred: spec_fn(char) -> bool)
    requires
        s.no_duplicates(),
    ensures
        s.filter(pred).no_duplicates(),
    decreases s.len(),
{
    if s.len() > 0 {
        let front = s.drop_last();
        let x = s.last();
        assert(s =~= front.push(x));
        assert(front.no_duplicates()) by {
            assert forall|i: int, j: int| 0 <= i < front.len() && 0 <= j < front.len() && i != j implies front[i] != front[j] by {
                assert(front[i] == s[i] && front[j] == s[j]);
            }
        }
        lemma_filter_keeps_no_duplicates(front, pred);
        front.lemma_filter_push(x, pred);
        if pred(x) {
            if front.filter(pred).contains(x) {
                front.lemma_filter_contains_rev(pred, x);
                let k = choose|k: int| 0 <= k < front.len() && front[k] == x;
                assert(s[k] == s[s.len() - 1]);
            }
            let f = front.filter(pred);
            assert forall|i: int, j: int| 0 <= i < f.push(x).len() && 0 <= j < f.push(x).len() && i != j implies f.push(x)[i] != f.push(x)[j] by {
                if i < f.len() && j < f.len() {
                } else if i < f.len() {
                    assert(f.contains(f[i]));
                } else if j < f.len() {
                    assert(f.contains(f[j]));
                }
            }
        }
    }
}

/// The available label characters are distinct and ASCII, and none of them
/// is forbidden.
pub proof fn lemma_available_labels(forbidden: Set<u32>)
    ensures
        available_labels(forbidden).no_duplicates(),
        forall|i: int|
            0 <= i < available_labels(forbidden).len() ==> ((#[trigger] available_labels(forbidden)[i]) as u32) < 128
                && label_allowed(forbidden, available_labels(forbidden)[i]),
{
    let pred = |c: char| label_allowed(forbidden, c);
    law_label_chars_distinct();
    lemma_priority_contains_ascii();
    lemma_filter_keeps_no_duplicates(priority_chars(), pred);
    assert forall|i: int| 0 <= i < available_labels(forbidden).len() implies ((#[trigger] available_labels(forbidden)[i]) as u32) < 128
        && label_allowed(forbidden, available_labels(forbidden)[i]) by {
        let c = available_labels(forbidden)[i];
        priority_chars().lemma_filter_pred(pred, i);
        assert(available_labels(forbidden).contains(c));
        priority_chars().lemma_filter_contains_rev(pred, c);
    }
}

proof fn lemma_priority_contains_ascii()
    ensures
        forall|c: char| priority_chars().contains(c) ==> (c as u32) < 128,
{
    law_label_chars_are_ascii();
}

/// Different matches of a search never get the same label.
pub proof fn law_labels_are_distinct(forbidden: Set<u32>, i: int, j: int)
    requires
        0 <= i < j,
        label_for(available_labels(forbidden), i).len() > 0,
    ensures
        label_for(available_labels(forbidden), i) != label_for(available_labels(forbidden), j),
{
    lemma_available_labels(forbidden);
    let available = available_labels(forbidden);
    if j < available.len() {
        assert(available[i] != available[j]);
        assert(label_for(available, i)[0] != label_for(available, j)[0]);
    }
}

/// No label is, up to ASCII case, the character that follows any match of the
/// search, so typing a label never reads as typing more of the query.
pub proof fn law_labels_avoid_next_chars(candidates: Seq<MatchCandidate>, i: int, j: int, next: char)
    requires
        0 <= i < available_labels(forbidden_codes(candidates)).len(),
        0 <= j < candidates.len(),
        candidates[j].next_char == Some(next),
    ensures
        ascii_lower(available_labels(forbidden_codes(candidates))[i]) != ascii_lower(next),
        available_labels(forbidden_codes(candidates))[i] != next,
{
    let forbidden = forbidden_codes(candidates);
    lemma_available_labels(forbidden);
    let c = available_labels(forbidden)[i];
    assert(code_follows(candidates[j], ascii_lower(next) as u32));
    assert(forbidden.contains(ascii_lower(next) as u32));
    assert(!forbidden.contains(ascii_lower(c) as u32));
}

proof fn lemma_ascii_bytes(c: char)
    requires
        (c as u32) < 128,
    ensures
        encode_utf8(seq![c]) == seq![c as u8],
{
    let s = seq![c];
    assert(s.drop_first() =~= Seq::<char>::empty());
    assert(encode_utf8(s.drop_first()) == Seq::<u8>::empty());
    let v = c as u32;
    assert((v & 0x7F) as u8 == v as u8) by (bit_vector)
        requires
            v < 128,
    ;
    assert(encode_utf8(s) =~= seq![c as u8]);
}

/// In a labelled search, a query that ends with the label of a match selects
/// that match and no other: with the contract of `on_query_editor_event`, an
/// edit that makes the query end with a label jumps to that label's match.
pub proof fn law_typed_label_selects_its_match(
    matches: Seq<JumpMatch>,
    forbidden: Set<u32>,
    query: Seq<char>,
    i: int,
)
    requires
        forall|k: int| 0 <= k < matches.len() ==> (#[trigger] matches[k]).label@ == label_for(available_labels(forbidden), k),
        0 <= i < matches.len(),
        label_typed(matches[i], query),
    ensures
        first_typed(matches, query, i),
{
    let available = available_labels(forbidden);
    lemma_available_labels(forbidden);
    let bytes = utf8(query);
    assert(i < available.len());
    let a = available[i];
    lemma_ascii_bytes(a);
    assert(matches[i].label@ == seq![a]);
    let sa = utf8(matches[i].label@);
    assert(sa == seq![a as u8]);
    assert(sa =~= bytes.subrange(bytes.len() - 1, bytes.len() as int));
    assert(bytes[bytes.len() - 1] == sa[0]);
    assert forall|j: int| 0 <= j < i implies !label_typed(#[trigger] matches[j], query) by {
        if label_typed(matches[j], query) {
            assert(j < available.len());
            let b = available[j];
            lemma_ascii_bytes(b);
            assert(matches[j].label@ == seq![b]);
            let sb = utf8(matches[j].label@);
            assert(sb == seq![b as u8]);
            assert(sb =~= bytes.subrange(bytes.len() - 1, bytes.len() as int));
            assert(bytes[bytes.len() - 1] == sb[0]);
            assert(a != b);
        }
    }
}

/// Two characters are the same up to ASCII case.
pub open spec fn same_ignoring_ascii_case(a: char, b: char) -> bool {
    ascii_lower(a) == ascii_lower(b)
}

proof fn lemma_case_variants(a: char, b: char)
    requires
        same_ignoring_ascii_case(a, b),
    ensures
        a == b || ((a as u32) < 128 && (b as u32) < 128 && ascii_upper(a) == ascii_upper(b)),
        ascii_upper(a) == ascii_upper(b),
{
    vstd::utf8::char_is_scalar(a);
    vstd::utf8::char_is_scalar(b);
    if a != b {
        if 'A' <= a && a <= 'Z' {
            vstd::utf8::char_u32_cast(b, b as u32);
        }
    }
}

proof fn lemma_encode_same_ignoring_case(q1: Seq<char>, q2: Seq<char>)
    requires
        q1.len() == q2.len(),
        forall|k: int| 0 <= k < q1.len() ==> same_ignoring_ascii_case(#[trigger] q1[k], q2[k]),
    ensures
        encode_utf8(q1).len() == encode_utf8(q2).len(),
        forall|k: int|
            0 <= k < encode_utf8(q1).len() ==> ascii_lower_byte(#[trigger] encode_utf8(q1)[k])
                == ascii_lower_byte(encode_utf8(q2)[k]),
    decreases q1.len(),
{
    if q1.len() > 0 {
        let r1 = q1.drop_first();
        let r2 = q2.drop_first();
        assert forall|k: int| 0 <= k < r1.len() implies same_ignoring_ascii_case(#[trigger] r1[k], r2[k]) by {
            assert(r1[k] == q1[k + 1] && r2[k] == q2[k + 1]);
        }
        lemma_encode_same_ignoring_case(r1, r2);
        let a = q1[0];
        let b = q2[0];
        assert(same_ignoring_ascii_case(a, b));
        lemma_case_variants(a, b);
        if a != b {
            lemma_ascii_bytes(a);
            lemma_ascii_bytes(b);
            let va = a as u32;
            let vb = b as u32;
            assert(encode_utf8(seq![a]) == vstd::utf8::encode_scalar(va) + encode_utf8(seq![a].drop_first()));
            assert(seq![a].drop_first() =~= Seq::<char>::empty());
            assert(seq![b].drop_first() =~= Seq::<char>::empty());
            assert(vstd::utf8::encode_scalar(va) =~= seq![a as u8]);
            assert(vstd::utf8::encode_scalar(vb) =~= seq![b as u8]);
            assert(ascii_lower_byte(a as u8) == ascii_lower_byte(b as u8));
        }
        let e1 = encode_utf8(q1);
        let e2 = encode_utf8(q2);
        let h1 = vstd::utf8::encode_scalar(a as u32);
        let h2 = vstd::utf8::encode_scalar(b as u32);
        assert(e1 == h1 + encode_utf8(r1));
        assert(e2 == h2 + encode_utf8(r2));
        assert(h1.len() == h2.len());
        assert forall|k: int| 0 <= k < e1.len() implies ascii_lower_byte(#[trigger] e1[k]) == ascii_lower_byte(e2[k]) by {
            if k < h1.len() {
                assert(e1[k] == h1[k] && e2[k] == h2[k]);
            } else {
                assert(e1[k] == encode_utf8(r1)[k - h1.len()]);
                assert(e2[k] == encode_utf8(r2)[k - h2.len()]);
            }
        }
    }
}

/// The search ignores ASCII case: changing the case of ASCII letters in the
/// query finds exactly the same occurrences.
pub proof fn law_search_ignores_ascii_case(text: Seq<u8>, end: int, q1: Seq<char>, q2: Seq<char>, offset: int)
    requires
        q1.len() == q2.len(),
        forall|k: int| 0 <= k < q1.len() ==> same_ignoring_ascii_case(#[trigger] q1[k], q2[k]),
    ensures
        is_match_at(text, end, q1, offset) == is_match_at(text, end, q2, offset),
{
    lemma_encode_same_ignoring_case(q1, q2);
    let e1 = encode_utf8(q1);
    let e2 = encode_utf8(q2);
    if q1.len() > 0 {
        assert(same_ignoring_ascii_case(q1[0], q2[0]));
        lemma_case_variants(q1[0], q2[0]);
        if 0 <= offset && offset + e1.len() <= text.len() {
            let w = text.subrange(offset, offset + e1.len());
            assert(eq_ignore_ascii_case(w, e1) == eq_ignore_ascii_case(w, e2));
        }
    }
}

/// The bytes of two strings joined are the bytes of each, joined.
pub proof fn lemma_encode_concat(a: Seq<char>, b: Seq<char>)
    ensures
        encode_utf8(a + b) == encode_utf8(a) + encode_utf8(b),
    decreases a.len(),
{
    if a.len() == 0 {
        assert(a + b =~= b);
        assert(encode_utf8(a) == Seq::<u8>::empty());
        assert(encode_utf8(a) + encode_utf8(b) =~= encode_utf8(b));
    } else {
        lemma_encode_concat(a.drop_first(), b);
        assert((a + b).drop_first() =~= a.drop_first() + b);
        assert((a + b)[0] == a[0]);
        assert(encode_utf8(a + b) =~= encode_utf8(a) + encode_utf8(b));
    }
}

/// Where the bytes of a prefix end, a character starts.
proof fn lemma_boundary_after_prefix(a: Seq<char>, r: Seq<char>)
    ensures
        is_char_boundary(encode_utf8(a + r), encode_utf8(a).len() as int),
    decreases a.len(),
{
    broadcast use vstd::utf8::encode_utf8_valid_utf8;
    if a.len() == 0 {
        assert(encode_utf8(a) == Seq::<u8>::empty());
    } else {
        let whole = a + r;
        let rest = a.drop_first() + r;
        lemma_boundary_after_prefix(a.drop_first(), r);
        assert(whole.drop_first() =~= rest);
        assert(whole[0] == a[0]);
        vstd::utf8::encode_utf8_first_scalar(whole);
        let bytes = encode_utf8(whole);
        let head = vstd::utf8::encode_scalar(a[0] as u32);
        assert(bytes == head + encode_utf8(rest));
        assert(vstd::utf8::pop_first_scalar(bytes) =~= encode_utf8(rest));
        assert(encode_utf8(a) == head + encode_utf8(a.drop_first()));
        assert(head.len() > 0);
    }
}

/// The search is a substring search: wherever the query's characters occur in
/// the text, and the occurrence ends by `end`, the query occurs at that byte
/// offset (and so, by `find_matches`'s contract, is found there when the
/// offset lies in the searched range).
pub proof fn law_substring_occurrence_matches(before: Seq<char>, query: Seq<char>, after: Seq<char>, end: int)
    requires
        query.len() > 0,
        encode_utf8(before).len() + encode_utf8(query).len() <= end,
    ensures
        is_match_at(encode_utf8(before + query + after), end, query, encode_utf8(before).len() as int),
{
    let text = before + query + after;
    let t = encode_utf8(text);
    let b = encode_utf8(before);
    let q = encode_utf8(query);
    lemma_encode_concat(before, query);
    lemma_encode_concat(before + query, after);
    lemma_boundary_after_prefix(before, query + after);
    assert(before + (query + after) =~= text);
    lemma_boundary_after_prefix(before + query, after);
    assert(t == b + q + encode_utf8(after));
    assert(t.subrange(b.len() as int, (b.len() + q.len()) as int) =~= q);
}

proof fn lemma_last_byte_of_char(c: char)
    ensures
        encode_utf8(seq![c]).len() > 0,
        (c as u32) < 128 ==> encode_utf8(seq![c]) == seq![c as u8],
        (c as u32) >= 128 ==> encode_utf8(seq![c]).last() >= 0x80,
{
    vstd::utf8::char_is_scalar(c);
    let v = c as u32;
    let s = seq![c];
    assert(s.drop_first() =~= Seq::<char>::empty());
    assert(encode_utf8(s.drop_first()) == Seq::<u8>::empty());
    assert(encode_utf8(s) =~= vstd::utf8::encode_scalar(v));
    if v < 128 {
        lemma_ascii_bytes(c);
    } else {
        assert(0x80 | (v & 0x3F) as u8 >= 0x80) by (bit_vector);
    }
}

/// After a search, an edit that adds to the query a character that follows
/// one of the matches (up to ASCII case) selects no label: by the contract of
/// `on_query_editor_event` it searches again instead of jumping. The matches
/// and labels are those that `apply_search_results` leaves for `candidates`.
pub proof fn law_following_char_does_not_jump(
    candidates: Seq<MatchCandidate>,
    matches: Seq<JumpMatch>,
    previous: Seq<char>,
    c: char,
    j: int,
    next: char,
)
    requires
        is_stable_sort_by_distance(matches.map_values(|m: JumpMatch| candidate_of(m)), candidates),
        forall|k: int| 0 <= k < matches.len() ==> (#[trigger] matches[k]).label@ == label_for(available_labels(forbidden_codes(candidates)), k),
        0 <= j < matches.len(),
        matches[j].next_char == Some(next),
        ascii_lower(next) == ascii_lower(c),
    ensures
        forall|i: int| 0 <= i < matches.len() ==> !label_typed(#[trigger] matches[i], previous.push(c)),
        forall|i: int| !first_typed(matches, previous.push(c), i),
{
    let forbidden = forbidden_codes(candidates);
    let available = available_labels(forbidden);
    let query = previous.push(c);
    let sorted = matches.map_values(|m: JumpMatch| candidate_of(m));
    lemma_available_labels(forbidden);
    assert(sorted[j] == candidate_of(matches[j]));
    assert(sorted.contains(sorted[j]));
    lemma_stable_sort_same_candidates(sorted, candidates, sorted[j]);
    let jc = choose|jc: int| 0 <= jc < candidates.len() && candidates[jc] == sorted[j];
    assert(previous + seq![c] =~= query);
    lemma_encode_concat(previous, seq![c]);
    lemma_last_byte_of_char(c);
    let bytes = utf8(query);
    let tail = encode_utf8(seq![c]);
    assert(bytes == encode_utf8(previous) + tail);
    assert(bytes.last() == tail.last());
    assert forall|i: int| 0 <= i < matches.len() implies !label_typed(#[trigger] matches[i], query) by {
        if label_typed(matches[i], query) {
            assert(i < available.len());
            let a = available[i];
            lemma_ascii_bytes(a);
            assert(matches[i].label@ == seq![a]);
            let sa = utf8(matches[i].label@);
            assert(sa == seq![a as u8]);
            assert(sa =~= bytes.subrange(bytes.len() - 1, bytes.len() as int));
            assert(sa[0] == bytes[bytes.len() - 1]);
            assert(bytes.last() == a as u8);
            if (c as u32) < 128 {
                assert(tail.last() == c as u8);
                assert(a == c);
                law_labels_avoid_next_chars(candidates, i, jc, next);
            }
        }
    }
}

/// At the same place on the screen, a match in the cursor's editor is nearer
/// than a match in any other editor.
pub proof fn law_cursor_editor_ranks_first(point: DisplayPoint, cursor: DisplayPoint)
    ensures
        match_distance_spec(point, cursor, true) < match_distance_spec(point, cursor, false),
{
}

/// Case folding pairs only ASCII letters: two bytes fold alike exactly when
/// they are equal, or one is an upper-case ASCII letter and the other is the
/// same letter in lower case (32 above it).
pub proof fn law_case_folding_pairs_only_letters(a: u8, b: u8)
    ensures
        ascii_lower_byte(a) == ascii_lower_byte(b) <==> (a == b || (0x41 <= a <= 0x5a && b == a + 32)
            || (0x41 <= b <= 0x5a && a == b + 32)),
{
}

/// Every byte of an occurrence equals the query's byte at the same place, or
/// the two are the same ASCII letter in different case.
pub proof fn law_match_bytes_agree_up_to_letter_case(text: Seq<u8>, end: int, query: Seq<char>, offset: int, k: int)
    requires
        vstd::utf8::valid_utf8(text),
        is_match_at(text, end, query, offset),
        0 <= k < encode_utf8(query).len(),
    ensures
        ({
            let w = text[offset + k];
            let q = encode_utf8(query)[k];
            w == q || (0x41 <= w <= 0x5a && q == w + 32) || (0x41 <= q <= 0x5a && w == q + 32)
        }),
{
    let q = encode_utf8(query);
    assert(offset + q.len() <= text.len());
    let win = text.subrange(offset, offset + q.len());
    assert(ascii_lower_byte(win[k]) == ascii_lower_byte(q[k]));
    assert(win[k] == text[offset + k]);
    law_case_folding_pairs_only_letters(win[k], q[k]);
}

/// The distance of a match, for coordinates that fit an `i32`: a thousand per
/// row apart plus one per column apart, in either direction, plus 100000
/// outside the cursor's editor.
pub proof fn law_distance_formula(point: DisplayPoint, cursor: DisplayPoint, is_active: bool)
    requires
        point.row <= i32::MAX,
        point.column <= i32::MAX,
        cursor.row <= i32::MAX,
        cursor.column <= i32::MAX,
    ensures
        match_distance_spec(point, cursor, is_active) == 1000 * (if point.row >= cursor.row {
            point.row - cursor.row
        } else {
            cursor.row - point.row
        }) + (if point.column >= cursor.column {
            point.column - cursor.column
        } else {
            cursor.column - point.column
        }) + (if is_active {
            0int
        } else {
            100000int
        }),
{
    let (pr, pc, cr, cc) = (point.row, point.column, cursor.row, cursor.column);
    assert((pr as i32) as int == pr as int) by (bit_vector)
        requires
            pr <= 0x7fff_ffff,
    ;
    assert((pc as i32) as int == pc as int) by (bit_vector)
        requires
            pc <= 0x7fff_ffff,
    ;
    assert((cr as i32) as int == cr as int) by (bit_vector)
        requires
            cr <= 0x7fff_ffff,
    ;
    assert((cc as i32) as int == cc as int) by (bit_vector)
        requires
            cc <= 0x7fff_ffff,
    ;
}

proof fn lemma_filter_all_pass(s: Seq<char>, pred: spec_fn(char) -> bool)
    requires
        forall|i: int| 0 <= i < s.len() ==> pred(#[trigger] s[i]),
    ensures
        s.filter(pred) == s,
    decreases s.len(),
{
    if s.len() > 0 {
        let front = s.drop_last();
        assert(s =~= front.push(s.last()));
        assert forall|i: int| 0 <= i < front.len() implies pred(#[trigger] front[i]) by {
            assert(front[i] == s[i]);
        }
        lemma_filter_all_pass(front, pred);
        front.lemma_filter_push(s.last(), pred);
    } else {
        s.lemma_filter_len(pred);
        assert(s.filter(pred) =~= s);
    }
}

/// The label characters in priority order: the home row, the top row and the
/// bottom row, then the same keys shifted; with nothing forbidden, these are
/// exactly the labels, in this order.
pub proof fn law_label_priority_order()
    ensures
        priority_chars() == "asdfghjkl;weruioptyzxcvbnm,ASDFGHJKL:WERUIOPTYZXCVBNM<"@,
        available_labels(Set::empty()) == "asdfghjkl;weruioptyzxcvbnm,ASDFGHJKL:WERUIOPTYZXCVBNM<"@,
{
    reveal_strlit("asdfghjkl;weruioptyzxcvbnm,ASDFGHJKL:WERUIOPTYZXCVBNM<");
    assert(priority_chars() =~= "asdfghjkl;weruioptyzxcvbnm,ASDFGHJKL:WERUIOPTYZXCVBNM<"@);
    let pred = |c: char| label_allowed(Set::<u32>::empty(), c);
    lemma_filter_all_pass(priority_chars(), pred);
}

proof fn lemma_first_typed_exists(matches: Seq<JumpMatch>, query: Seq<char>, i: int)
    requires
        0 <= i < matches.len(),
        label_typed(matches[i], query),
    ensures
        exists|k: int| first_typed(matches, query, k),
    decreases i,
{
    if exists|j: int| 0 <= j < i && label_typed(#[trigger] matches[j], query) {
        let j = choose|j: int| 0 <= j < i && label_typed(#[trigger] matches[j], query);
        lemma_first_typed_exists(matches, query, j);
    } else {
        assert(first_typed(matches, query, i));
    }
}

/// Whenever the bar holds a match whose label an edit makes the query end
/// with, and the query grew, the edit may jump and has a first typed match to
/// jump to; by the contract of `on_query_editor_event` it then jumps there,
/// one match being enough.
pub proof fn law_grown_query_ending_in_label_jumps(bar: JumpBar, query: Seq<char>, i: int)
    requires
        0 <= i < bar.matches@.len(),
        utf8(query).len() > bar.previous_query_length,
        label_typed(bar.matches@[i], query),
    ensures
        may_jump(bar, query),
        exists|k: int| first_typed(bar.matches@, query, k),
{
    lemma_first_typed_exists(bar.matches@, query, i);
    if query.len() == 0 {
        assert(utf8(query) == Seq::<u8>::empty());
    }
}

proof fn lemma_flatten_member(groups: Seq<Seq<MatchCandidate>>, x: MatchCandidate)
    requires
        groups.flatten().contains(x),
    ensures
        exists|k: int, j: int| 0 <= k < groups.len() && 0 <= j < groups[k].len() && #[trigger] groups[k][j] == x,
    decreases groups.len(),
{
    if groups.len() == 0 {
        assert(groups.flatten() == Seq::<MatchCandidate>::empty());
    } else {
        let first = groups[0];
        let rest = groups.drop_first();
        assert(groups.flatten() == first + rest.flatten());
        let i = choose|i: int| 0 <= i < groups.flatten().len() && groups.flatten()[i] == x;
        if i < first.len() {
            assert(groups[0][i] == x);
        } else {
            assert(rest.flatten()[i - first.len()] == x);
            assert(rest.flatten().contains(x));
            lemma_flatten_member(rest, x);
            let (k, j) = choose|k: int, j: int| 0 <= k < rest.len() && 0 <= j < rest[k].len() && #[trigger] rest[k][j] == x;
            assert(groups[k + 1][j] == x);
        }
    }
}

/// The editor free of the penalty in a search is the active editor (the first
/// visible editor when none was active): every candidate of that editor is
/// measured by its distance from the cursor alone, every other visible
/// editor's candidate pays 100000 more.
pub proof fn law_active_editor_pays_no_penalty(
    bar: JumpBar,
    found: Seq<Vec<PlacedMatch>>,
    cursor: DisplayPoint,
    x: MatchCandidate,
)
    requires
        has_cursor_editor(bar),
        bar.visible_editors@.len() == found.len(),
        all_distances_fit(bar.visible_editors@, found, cursor_editor_of(bar), cursor),
        all_candidates(bar.visible_editors@, found, cursor_editor_of(bar), cursor).contains(x),
    ensures
        x.distance == point_distance(x.position, cursor) + (if x.editor == (match bar.active_editor {
            Some(a) => a,
            None => bar.visible_editors@[0],
        }) {
            0int
        } else {
            100000int
        }),
{
    let editors = bar.visible_editors@;
    let ce = cursor_editor_of(bar);
    let groups = Seq::new(
        editors.len(),
        |k: int| found[k]@.map_values(|m: PlacedMatch| candidate_for(m, editors[k], ce, cursor)),
    );
    lemma_flatten_member(groups, x);
    let (k, j) = choose|k: int, j: int| 0 <= k < groups.len() && 0 <= j < groups[k].len() && #[trigger] groups[k][j] == x;
    let m = found[k]@[j];
    assert(groups[k][j] == candidate_for(m, editors[k], ce, cursor));
    assert(distance_fits(found[k]@[j].position, cursor, editors[k] == ce));
}

/// The same for the ranked matches that a search leaves: each match's
/// distance is its distance from the cursor, plus 100000 unless it lies in the
/// active editor (the first visible editor when none was active).
pub proof fn law_ranked_matches_measured_from_active_editor(
    bar: JumpBar,
    found: Seq<Vec<PlacedMatch>>,
    cursor: DisplayPoint,
    matches: Seq<JumpMatch>,
    i: int,
)
    requires
        has_cursor_editor(bar),
        bar.visible_editors@.len() == found.len(),
        all_distances_fit(bar.visible_editors@, found, cursor_editor_of(bar), cursor),
        is_stable_sort_by_distance(
            matches.map_values(|m: JumpMatch| candidate_of(m)),
            all_candidates(bar.visible_editors@, found, cursor_editor_of(bar), cursor),
        ),
        0 <= i < matches.len(),
    ensures
        matches[i].distance == point_distance(matches[i].position, cursor) + (if matches[i].editor == (
        match bar.active_editor {
            Some(a) => a,
            None => bar.visible_editors@[0],
        }) {
            0int
        } else {
            100000int
        }),
{
    let sorted = matches.map_values(|m: JumpMatch| candidate_of(m));
    let all = all_candidates(bar.visible_editors@, found, cursor_editor_of(bar), cursor);
    assert(sorted[i] == candidate_of(matches[i]));
    assert(sorted.contains(sorted[i]));
    lemma_stable_sort_same_candidates(sorted, all, sorted[i]);
    law_active_editor_pays_no_penalty(bar, found, cursor, sorted[i]);
}

/// Character case folding pairs only ASCII letters: two characters fold alike
/// exactly when they are equal or are the same ASCII letter in both cases; and
/// folding up changes only the lower-case ASCII letters, by 32.
pub proof fn law_char_folding_pairs_only_letters(a: char, b: char)
    ensures
        ascii_lower(a) == ascii_lower(b) <==> (a == b || ('A' <= a <= 'Z' && b as u32 == a as u32 + 32)
            || ('A' <= b <= 'Z' && a as u32 == b as u32 + 32)),
        ('a' <= a <= 'z' ==> ascii_upper(a) as u32 == a as u32 - 32),
        (!('a' <= a <= 'z') ==> ascii_upper(a) == a),
        ('A' <= a <= 'Z' ==> ascii_lower(a) as u32 == a as u32 + 32),
        (!('A' <= a <= 'Z') ==> ascii_lower(a) == a),
{
    vstd::utf8::char_is_scalar(a);
    vstd::utf8::char_is_scalar(b);
    vstd::utf8::char_u32_cast(a, a as u32);
    vstd::utf8::char_u32_cast(b, b as u32);
}

/// The candidates at distance `d`, in their order.
pub open spec fn candidates_at(s: Seq<MatchCandidate>, d: u32) -> Seq<MatchCandidate> {
    s.filter(|c: MatchCandidate| c.distance == d)
}

/// A stable ranking puts nearer candidates first, keeps exactly the given
/// candidates, and keeps candidates at equal distance in their given order.
pub proof fn law_ranking_nearest_first(sorted: Seq<MatchCandidate>, original: Seq<MatchCandidate>)
    requires
        is_stable_sort_by_distance(sorted, original),
    ensures
        sorted.len() == original.len(),
        forall|i: int, j: int| 0 <= i < j < sorted.len() ==> #[trigger] sorted[i].distance <= #[trigger] sorted[j].distance,
        forall|x: MatchCandidate| sorted.contains(x) <==> original.contains(x),
        forall|d: u32| #[trigger] candidates_at(sorted, d) == candidates_at(original, d),
{
    assert forall|x: MatchCandidate| sorted.contains(x) <==> original.contains(x) by {
        lemma_stable_sort_same_candidates(sorted, original, x);
    }
    assert forall|d: u32| #[trigger] candidates_at(sorted, d) == candidates_at(original, d) by {
        assert(crate::ranking::with_distance(sorted, d) == crate::ranking::with_distance(original, d));
    }
}

/// A label character is available exactly when it is a label character whose
/// ASCII lower case is not forbidden.
pub proof fn law_available_labels_membership(forbidden: Set<u32>, c: char)
    ensures
        available_labels(forbidden).contains(c) <==> (priority_chars().contains(c) && !forbidden.contains(
            ascii_lower(c) as u32,
        )),
{
    let pred = |x: char| label_allowed(forbidden, x);
    if available_labels(forbidden).contains(c) {
        priority_chars().lemma_filter_contains_rev(pred, c);
        let i = choose|i: int| 0 <= i < available_labels(forbidden).len() && available_labels(forbidden)[i] == c;
        priority_chars().lemma_filter_pred(pred, i);
    }
    if priority_chars().contains(c) && !forbidden.contains(ascii_lower(c) as u32) {
        let i = choose|i: int| 0 <= i < priority_chars().len() && priority_chars()[i] == c;
        priority_chars().lemma_filter_contains(pred, i);
    }
}

/// With nothing forbidden, the `i`-th match of a search gets the `i`-th
/// character of the priority string as its label, and matches past the last
/// character get none.
pub proof fn law_labels_follow_priority_string(i: int)
    requires
        0 <= i,
    ensures
        label_for(available_labels(Set::empty()), i) == if i < 54 {
            seq!["asdfghjkl;weruioptyzxcvbnm,ASDFGHJKL:WERUIOPTYZXCVBNM<"@[i]]
        } else {
            Seq::<char>::empty()
        },
{
    law_label_priority_order();
    reveal_strlit("asdfghjkl;weruioptyzxcvbnm,ASDFGHJKL:WERUIOPTYZXCVBNM<");
}

/// A one-character ASCII label is typed exactly when the query ends with that
/// character.
pub proof fn law_label_typed_iff_query_ends_with_it(m: JumpMatch, query: Seq<char>, a: char)
    requires
        m.label@ == seq![a],
        (a as u32) < 128,
    ensures
        label_typed(m, query) <==> (query.len() > 0 && query.last() == a),
{
    lemma_ascii_bytes(a);
    let bytes = utf8(query);
    if query.len() > 0 {
        let front = query.drop_last();
        let c = query.last();
        assert(front + seq![c] =~= query);
        lemma_encode_concat(front, seq![c]);
        lemma_last_byte_of_char(c);
        let tail = encode_utf8(seq![c]);
        assert(bytes == encode_utf8(front) + tail);
        assert(bytes.last() == tail.last());
        if label_typed(m, query) {
            assert(seq![a as u8] =~= bytes.subrange(bytes.len() - 1, bytes.len() as int));
            assert(seq![a as u8][0] == bytes[bytes.len() - 1]);
            if (c as u32) < 128 {
                assert(tail.last() == c as u8);
                vstd::utf8::char_u32_cast(a, a as u32);
                vstd::utf8::char_u32_cast(c, c as u32);
            }
        }
        if c == a {
            assert(tail =~= seq![a as u8]);
            assert(bytes.subrange(bytes.len() - 1, bytes.len() as int) =~= seq![a as u8]);
        }
    } else {
        assert(bytes == Seq::<u8>::empty());
    }
}

/// The match that an edit jumps to is the first whose label the query ends
/// with: its label is typed, no earlier label is, and there is only one such
/// match.
pub proof fn law_jump_goes_to_first_typed_label(matches: Seq<JumpMatch>, query: Seq<char>, i: int, k: int)
    requires
        first_typed(matches, query, i),
    ensures
        0 <= i < matches.len(),
        label_typed(matches[i], query),
        forall|j: int| 0 <= j < i ==> !label_typed(#[trigger] matches[j], query),
        first_typed(matches, query, k) ==> k == i,
{
}

/// No edit jumps unless the query grew past the length it had at the previous
/// edit, is not empty, and the bar holds a match.
pub proof fn law_no_jump_unless_query_grew(bar: JumpBar, query: Seq<char>)
    ensures
        may_jump(bar, query) <==> (utf8(query).len() > bar.previous_query_length && query.len() > 0
            && bar.matches@.len() >= 1),
{
}

/// The character reported after an occurrence is the text's next character:
/// where the text is `before` followed by `rest`, the character at the end of
/// `before`'s bytes is the first of `rest`, or none when `rest` is empty.
pub proof fn law_next_char_is_the_following_char(before: Seq<char>, rest: Seq<char>)
    ensures
        char_at_byte(encode_utf8(before + rest), encode_utf8(before).len() as int) == if rest.len() > 0 {
            Some(rest[0])
        } else {
            None::<char>
        },
{
    broadcast use vstd::utf8::encode_utf8_valid_utf8, vstd::utf8::encode_utf8_decode_utf8;
    lemma_encode_concat(before, rest);
    lemma_boundary_after_prefix(before, rest);
    let t = encode_utf8(before + rest);
    let b = encode_utf8(before);
    assert(t.subrange(b.len() as int, t.len() as int) =~= encode_utf8(rest));
    if rest.len() == 0 {
        assert(encode_utf8(rest) == Seq::<u8>::empty());
    } else {
        vstd::utf8::encode_utf8_first_scalar(rest);
    }
}

} // verus!
