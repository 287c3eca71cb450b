use jump::jump_bar::{JumpBar, QueryEditorAction, QueryEditorEvent, SearchStart};
use jump::ranking::{build_candidates, distances_in_range, DisplayPoint, PlacedMatch};

fn point(row: u32, column: u32) -> DisplayPoint {
    DisplayPoint { row, column }
}

fn placed(row: u32, column: u32, next_char: Option<char>) -> PlacedMatch {
    PlacedMatch { position: point(row, column), next_char }
}

#[test]
fn candidates_come_editor_by_editor_with_their_distances() {
    let editors = vec![4, 9];
    let found = vec![vec![placed(1, 2, Some('a')), placed(0, 0, None)], vec![placed(3, 1, Some('z'))]];
    let cursor = point(1, 0);
    let candidates = build_candidates(&editors, 9, cursor, &found);
    let summary: Vec<(u64, u32, Option<char>)> = candidates.iter().map(|c| (c.editor, c.distance, c.next_char)).collect();
    assert_eq!(summary, vec![(4, 100002, Some('a')), (4, 101000, None), (9, 2001, Some('z'))]);
    assert_eq!(candidates[2].position, point(3, 1));
}

#[test]
fn distances_are_checked_before_measuring() {
    let editors = vec![1, 2];
    let far = vec![vec![placed(0, 0, None)], vec![placed(4_294_967, 0, None)]];
    assert!(!distances_in_range(&editors, 1, point(0, 0), &far));
    assert!(distances_in_range(&editors, 2, point(0, 0), &far));
    assert!(distances_in_range(&editors, 1, point(0, 0), &vec![vec![], vec![]]));
}

#[test]
fn a_complete_search_ranks_from_the_cursor_editor() {
    let mut bar = JumpBar::new(None, vec![5, 6]);
    assert_eq!(bar.update_search("ab".to_string()), SearchStart::Search { cursor_editor: 5 });
    let found = vec![vec![placed(10, 0, Some('c'))], vec![placed(0, 0, Some('d'))]];
    let outcome = bar.complete_search(point(0, 0), &found, false);
    let ranked: Vec<(u64, u32, &str)> = bar.matches.iter().map(|m| (m.editor, m.distance, m.label.as_str())).collect();
    // editor 5 holds the cursor: 10 rows away beats the other editor's penalty
    assert_eq!(ranked, vec![(5, 10000, "a"), (6, 100000, "s")]);
    assert_eq!(outcome.labels[0].labels[0].label, "a");
    assert_eq!(outcome.labels[1].labels[0].label, "s");
}

#[test]
fn typing_the_char_after_a_match_searches_again() {
    let mut bar = JumpBar::new(Some(1), vec![1]);
    assert_eq!(bar.on_query_editor_event(QueryEditorEvent::BufferEdited("th".to_string())), QueryEditorAction::UpdateSearch);
    bar.update_search("th".to_string());
    // the matches are followed by 'a' and 'S', so neither 'a', 'A', 's' nor 'S' is a label
    let found = vec![vec![placed(0, 0, Some('a')), placed(1, 0, Some('S')), placed(2, 0, None)]];
    bar.complete_search(point(0, 0), &found, false);
    let labels: Vec<&str> = bar.matches.iter().map(|m| m.label.as_str()).collect();
    assert_eq!(labels, vec!["d", "f", "g"]);
    for typed in ["tha", "thA", "ths", "thS"] {
        let mut copy = JumpBar::new(Some(1), vec![1]);
        copy.previous_query_length = 2;
        copy.matches = bar.matches.iter().map(|m| jump::jump_bar::JumpMatch {
            position: m.position,
            label: m.label.clone(),
            distance: m.distance,
            editor: m.editor,
            next_char: m.next_char,
        }).collect();
        assert_eq!(copy.on_query_editor_event(QueryEditorEvent::BufferEdited(typed.to_string())), QueryEditorAction::UpdateSearch);
    }
    assert_eq!(
        bar.on_query_editor_event(QueryEditorEvent::BufferEdited("thf".to_string())),
        QueryEditorAction::JumpTo(jump::jump_bar::JumpTarget { position: point(1, 0), editor: 1 })
    );
}
