use jump::ranking::{distance_in_range, match_distance, sort_by_distance, DisplayPoint, MatchCandidate};
use jump::text_search::{
    find_matches, search_stays_in_text, to_ascii_lowercase, to_ascii_uppercase, TextMatch,
};

fn offsets(matches: &[TextMatch]) -> Vec<usize> {
    matches.iter().map(|m| m.offset).collect()
}

#[test]
fn finds_every_case_of_the_query() {
    let text = "Hello hello HELLO";
    let matches = find_matches(text, 0, text.len(), "hel");
    assert_eq!(offsets(&matches), vec![0, 6, 12]);
    assert_eq!(matches[0].next_char, Some('l'));
    assert_eq!(matches[2].next_char, Some('L'));
}

#[test]
fn upper_case_query_finds_lower_case_text() {
    let text = "foo Foo fOO";
    let matches = find_matches(text, 0, text.len(), "FOO");
    assert_eq!(offsets(&matches), vec![0, 4, 8]);
    assert_eq!(matches[0].next_char, Some(' '));
    assert_eq!(matches[2].next_char, None);
}

#[test]
fn empty_query_has_no_matches() {
    let text = "anything";
    assert!(find_matches(text, 0, text.len(), "").is_empty());
}

#[test]
fn only_the_visible_range_is_searched() {
    let text = "ab ab ab ab";
    // visible bytes 3..8: "ab ab"
    let matches = find_matches(text, 3, 8, "ab");
    assert_eq!(offsets(&matches), vec![3, 6]);
    // an occurrence that starts inside the range but ends after it is left out
    let matches = find_matches(text, 3, 7, "ab");
    assert_eq!(offsets(&matches), vec![3]);
    // an empty or reversed range finds nothing
    assert!(find_matches(text, 5, 5, "ab").is_empty());
    assert!(find_matches(text, 8, 2, "ab").is_empty());
}

#[test]
fn multibyte_text_matches_on_bytes() {
    let text = "h\u{e9}llo h\u{e9}";
    let matches = find_matches(text, 0, text.len(), "H\u{e9}");
    assert_eq!(offsets(&matches), vec![0, 7]);
    assert_eq!(matches[0].next_char, Some('l'));
    assert_eq!(matches[1].next_char, None);
}

#[test]
fn next_char_can_be_multibyte() {
    let text = "ab\u{e9}";
    let matches = find_matches(text, 0, text.len(), "ab");
    assert_eq!(offsets(&matches), vec![0]);
    assert_eq!(matches[0].next_char, Some('\u{e9}'));
}

#[test]
fn query_starting_with_non_ascii_is_found() {
    let text = "\u{e9}t\u{e9}";
    let matches = find_matches(text, 0, text.len(), "\u{e9}");
    assert_eq!(offsets(&matches), vec![0, 3]);
    assert_eq!(matches[0].next_char, Some('t'));
    assert_eq!(matches[1].next_char, None);
    let text = "x\u{c3}y";
    let matches = find_matches(text, 0, text.len(), "\u{c3}");
    assert_eq!(offsets(&matches), vec![1]);
    assert_eq!(matches[0].next_char, Some('y'));
    // non-ASCII letters are compared exactly: upper-case E-acute is another character
    assert!(find_matches("\u{c9}t\u{c9}", 0, 5, "\u{e9}").is_empty());
}

#[test]
fn a_range_past_the_text_is_refused_only_where_it_would_be_read() {
    let text = "abcd";
    assert!(search_stays_in_text(text, 0, 4, "ab"));
    assert!(search_stays_in_text(text, 0, 10, ""));
    // from byte 4 on, "ab" would need bytes up to 6, which the range allows
    assert!(!search_stays_in_text(text, 0, 6, "ab"));
    assert!(search_stays_in_text(text, 0, 5, "ab"));
    let matches = find_matches(text, 0, 5, "cd");
    assert_eq!(offsets(&matches), vec![2]);
    assert!(!search_stays_in_text(text, 7, 9, "ab"));
    assert!(search_stays_in_text(text, 7, 8, "ab"));
}

#[test]
fn ascii_case_conversion_leaves_other_chars() {
    assert_eq!(to_ascii_lowercase('Q'), 'q');
    assert_eq!(to_ascii_lowercase('q'), 'q');
    assert_eq!(to_ascii_lowercase(';'), ';');
    assert_eq!(to_ascii_uppercase('z'), 'Z');
    assert_eq!(to_ascii_uppercase('\u{e9}'), '\u{e9}');
}

fn point(row: u32, column: u32) -> DisplayPoint {
    DisplayPoint { row, column }
}

#[test]
fn distance_weighs_rows_a_thousand_times() {
    let cursor = point(2, 3);
    assert_eq!(match_distance(point(5, 10), cursor, true), 3007);
    assert_eq!(match_distance(point(0, 0), cursor, true), 2003);
    assert_eq!(match_distance(point(2, 3), cursor, true), 0);
}

#[test]
fn other_editors_pay_a_penalty() {
    let cursor = point(2, 3);
    assert_eq!(match_distance(point(5, 10), cursor, false), 103007);
    assert_eq!(match_distance(point(2, 3), cursor, false), 100000);
}

#[test]
fn distance_out_of_range_is_detected() {
    let cursor = point(0, 0);
    assert!(distance_in_range(point(4_000_000, 0), cursor, true));
    assert!(!distance_in_range(point(5_000_000, 0), cursor, true));
    assert!(distance_in_range(point(4_294_867, 295), cursor, false));
    assert!(!distance_in_range(point(4_294_867, 296), cursor, false));
    assert!(distance_in_range(point(4_294_967, 295), cursor, true));
    assert_eq!(match_distance(point(4_294_967, 295), cursor, true), u32::MAX);
    assert!(!distance_in_range(point(4_294_967, 296), cursor, true));
    // rows are read as i32: u32::MAX counts as -1
    assert!(distance_in_range(point(u32::MAX, 0), cursor, true));
    assert_eq!(match_distance(point(u32::MAX, 0), cursor, true), 1000);
}

fn candidate(distance: u32, editor: u64) -> MatchCandidate {
    MatchCandidate { position: point(distance, editor as u32), distance, editor, next_char: None }
}

#[test]
fn sorting_keeps_ties_in_order() {
    let input = vec![candidate(5, 1), candidate(3, 1), candidate(5, 2), candidate(1, 1), candidate(3, 2)];
    let sorted = sort_by_distance(&input);
    let keys: Vec<(u32, u64)> = sorted.iter().map(|c| (c.distance, c.editor)).collect();
    assert_eq!(keys, vec![(1, 1), (3, 1), (3, 2), (5, 1), (5, 2)]);
}
