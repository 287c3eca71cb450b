use std::collections::HashSet;

use jump::jump_bar::rank_and_label;
use jump::labels::generate_labels;
use jump::ranking::{match_distance, DisplayPoint, MatchCandidate};
use jump::text_search::find_matches;

#[test]
fn labels_of_one_search_are_distinct() {
    let candidates: Vec<MatchCandidate> = (0..40)
        .map(|i| MatchCandidate {
            position: DisplayPoint { row: i, column: 0 },
            distance: 40 - i,
            editor: 1,
            next_char: None,
        })
        .collect();
    let matches = rank_and_label(&candidates);
    let labels: HashSet<&str> = matches.iter().map(|m| m.label.as_str()).collect();
    assert_eq!(labels.len(), 40);
}

#[test]
fn labels_never_repeat_a_following_char() {
    let next = ['d', 'S', 'k', ';', '\u{e9}', '<'];
    let candidates: Vec<MatchCandidate> = next
        .iter()
        .enumerate()
        .map(|(i, c)| MatchCandidate {
            position: DisplayPoint { row: i as u32, column: 0 },
            distance: i as u32,
            editor: 1,
            next_char: Some(*c),
        })
        .collect();
    let matches = rank_and_label(&candidates);
    for m in &matches {
        let label = m.label.chars().next().unwrap();
        for c in next {
            assert_ne!(label.to_ascii_lowercase(), c.to_ascii_lowercase());
        }
    }
    let labels: Vec<&str> = matches.iter().map(|m| m.label.as_str()).collect();
    assert_eq!(labels, vec!["a", "f", "g", "h", "j", "l"]);
}

#[test]
fn all_labels_are_single_ascii_chars() {
    for label in generate_labels(54, &HashSet::new()) {
        assert_eq!(label.chars().count(), 1);
        assert!(label.is_ascii());
    }
}

#[test]
fn changing_the_case_of_the_query_finds_the_same_matches() {
    let text = "Where THERE there, tHeRe";
    let a: Vec<usize> = find_matches(text, 0, text.len(), "there").iter().map(|m| m.offset).collect();
    let b: Vec<usize> = find_matches(text, 0, text.len(), "THERE").iter().map(|m| m.offset).collect();
    let c: Vec<usize> = find_matches(text, 0, text.len(), "ThErE").iter().map(|m| m.offset).collect();
    assert_eq!(a, vec![6, 12, 19]);
    assert_eq!(a, b);
    assert_eq!(a, c);
}

#[test]
fn a_match_in_the_cursor_editor_comes_first() {
    let cursor = DisplayPoint { row: 10, column: 10 };
    let here = DisplayPoint { row: 40, column: 0 };
    assert!(match_distance(here, cursor, true) < match_distance(here, cursor, false));
    assert_eq!(match_distance(here, cursor, true), 30010);
}

#[test]
fn a_query_is_found_wherever_its_chars_occur() {
    let text = "caf\u{e9} \u{e9}t\u{e9} \u{c9}T\u{c9}";
    let found: Vec<usize> = find_matches(text, 0, text.len(), "\u{e9}t\u{e9}").iter().map(|m| m.offset).collect();
    assert_eq!(found, vec![6]);
    let found: Vec<usize> = find_matches(text, 0, text.len(), "\u{e9}T\u{e9}").iter().map(|m| m.offset).collect();
    assert_eq!(found, vec![6]);
}
