use std::collections::HashSet;

use jump::actions::{Event, Toggle};
use jump::jump_bar::{
    labels_for_editor, rank_and_label, DismissDecision, JumpBar, JumpMatch, JumpTarget,
    QueryEditorAction, QueryEditorEvent, SearchStart,
};
use jump::labels::{forbidden_chars, generate_labels};
use jump::panes::{locate_editor, visible_editors};
use jump::ranking::{DisplayPoint, MatchCandidate};
use jump::settings::{JumpSettings, JumpSettingsContent, SettingsContent};

fn point(row: u32, column: u32) -> DisplayPoint {
    DisplayPoint { row, column }
}

fn codes(chars: &[char]) -> HashSet<u32> {
    chars.iter().map(|c| *c as u32).collect()
}

#[test]
fn labels_follow_the_priority_order() {
    let labels = generate_labels(5, &HashSet::new());
    assert_eq!(labels, vec!["a", "s", "d", "f", "g"]);
}

#[test]
fn no_labels_for_no_matches() {
    assert!(generate_labels(0, &HashSet::new()).is_empty());
}

#[test]
fn forbidden_chars_are_skipped_in_both_cases() {
    // 's' forbids both 's' and 'S'
    let labels = generate_labels(3, &codes(&['s', 'S']));
    assert_eq!(labels, vec!["a", "d", "f"]);
    let labels = generate_labels(28, &codes(&['s', 'S']));
    assert_eq!(labels.len(), 28);
    assert_eq!(labels[25], ",");
    assert_eq!(labels[26], "A");
    assert_eq!(labels[27], "D");
}

#[test]
fn an_upper_case_label_is_skipped_when_its_lower_case_is_forbidden() {
    // only the lower case is forbidden: 'A' lowers to 'a' and is skipped too
    let labels = generate_labels(54, &codes(&['a']));
    assert_eq!(labels.len(), 52);
    assert!(!labels.contains(&"a".to_string()));
    assert!(!labels.contains(&"A".to_string()));
    // an upper case entry alone forbids nothing, since labels are compared in lower case
    let labels = generate_labels(54, &codes(&['A']));
    assert_eq!(labels.len(), 54);
}

#[test]
fn labels_run_out() {
    let labels = generate_labels(100, &HashSet::new());
    assert_eq!(labels.len(), 54);
    assert_eq!(labels[9], ";");
    assert_eq!(labels[53], "<");
    let unique: HashSet<&String> = labels.iter().collect();
    assert_eq!(unique.len(), 54);
    assert!(!labels.contains(&"q".to_string()));
}

fn cand(row: u32, column: u32, distance: u32, editor: u64, next_char: Option<char>) -> MatchCandidate {
    MatchCandidate { position: point(row, column), distance, editor, next_char }
}

#[test]
fn forbidden_chars_collects_both_cases_of_next_chars() {
    let candidates = vec![cand(0, 0, 0, 1, Some('X')), cand(0, 5, 5, 1, None), cand(1, 0, 1000, 1, Some(';'))];
    let set = forbidden_chars(&candidates);
    assert_eq!(set, codes(&['x', 'X', ';']));
}

#[test]
fn nearest_matches_get_the_first_labels() {
    let candidates = vec![
        cand(9, 0, 7000, 1, Some('a')),
        cand(2, 1, 1, 1, Some('b')),
        cand(4, 0, 2000, 2, None),
    ];
    let matches = rank_and_label(&candidates);
    let order: Vec<(u32, &str)> = matches.iter().map(|m| (m.distance, m.label.as_str())).collect();
    // 'a' follows a match, so 'a' and 'A' are not labels
    assert_eq!(order, vec![(1, "s"), (2000, "d"), (7000, "f")]);
}

fn bar_with(active: Option<u64>, visible: Vec<u64>) -> JumpBar {
    JumpBar::new(active, visible)
}

#[test]
fn a_new_bar_is_empty() {
    let bar = bar_with(Some(1), vec![1, 2]);
    assert!(bar.matches.is_empty());
    assert_eq!(bar.search_query, "");
    assert_eq!(bar.previous_query_length, 0);
    assert!(!bar.query_editor_focused);
    assert_eq!(bar.visible_editors, vec![1, 2]);
}

#[test]
fn empty_query_clears_the_search() {
    let mut bar = bar_with(Some(1), vec![1]);
    bar.update_search("ab".to_string());
    bar.apply_search_results(vec![cand(0, 0, 0, 1, None)], false);
    assert_eq!(bar.matches.len(), 1);
    assert_eq!(bar.update_search(String::new()), SearchStart::ClearLabels);
    assert!(bar.matches.is_empty());
}

#[test]
fn the_cursor_editor_is_the_active_one_or_the_first_visible() {
    let mut bar = bar_with(Some(7), vec![1, 7]);
    assert_eq!(bar.update_search("x".to_string()), SearchStart::Search { cursor_editor: 7 });
    let mut bar = bar_with(None, vec![3, 4]);
    assert_eq!(bar.update_search("x".to_string()), SearchStart::Search { cursor_editor: 3 });
    let mut bar = bar_with(None, vec![]);
    assert_eq!(bar.update_search("x".to_string()), SearchStart::NoEditors);
    assert_eq!(bar.search_query, "x");
}

#[test]
fn search_results_are_labelled_and_drawn_per_editor() {
    let mut bar = bar_with(Some(1), vec![1, 2, 3]);
    bar.update_search("fo".to_string());
    let outcome = bar.apply_search_results(
        vec![
            cand(0, 4, 100004, 2, Some('o')),
            cand(0, 0, 0, 1, Some('o')),
            cand(3, 0, 3000, 1, None),
        ],
        true,
    );
    assert!(outcome.jump.is_none());
    let labels: Vec<&str> = bar.matches.iter().map(|m| m.label.as_str()).collect();
    assert_eq!(labels, vec!["a", "s", "d"]);
    assert_eq!(outcome.labels.len(), 3);
    assert_eq!(outcome.labels[0].editor, 1);
    assert_eq!(outcome.labels[0].labels.len(), 2);
    assert_eq!(outcome.labels[0].labels[0].label, "a");
    assert_eq!(outcome.labels[0].labels[0].position, point(0, 0));
    assert_eq!(outcome.labels[0].labels[0].match_length, 2);
    assert_eq!(outcome.labels[0].labels[1].label, "s");
    assert_eq!(outcome.labels[1].editor, 2);
    assert_eq!(outcome.labels[1].labels.len(), 1);
    assert_eq!(outcome.labels[1].labels[0].label, "d");
    assert_eq!(outcome.labels[2].editor, 3);
    assert!(outcome.labels[2].labels.is_empty());
}

#[test]
fn a_single_match_jumps_only_with_autojump() {
    let mut bar = bar_with(Some(1), vec![1]);
    bar.update_search("zq".to_string());
    let outcome = bar.apply_search_results(vec![cand(4, 2, 4002, 1, None)], true);
    assert_eq!(outcome.jump, Some(JumpTarget { position: point(4, 2), editor: 1 }));
    let outcome = bar.apply_search_results(vec![cand(4, 2, 4002, 1, None)], false);
    assert_eq!(outcome.jump, None);
    let outcome = bar.apply_search_results(vec![], true);
    assert_eq!(outcome.jump, None);
}

#[test]
fn unlabelled_matches_are_not_drawn() {
    let candidates: Vec<MatchCandidate> = (0..60).map(|i| cand(i, 0, i * 1000, 1, None)).collect();
    let matches = rank_and_label(&candidates);
    assert_eq!(matches.len(), 60);
    assert_eq!(matches[53].label, "<");
    assert_eq!(matches[54].label, "");
    let drawn = labels_for_editor(&matches, 1, 3);
    assert_eq!(drawn.len(), 54);
    assert!(labels_for_editor(&matches, 2, 3).is_empty());
}

fn labelled_bar() -> JumpBar {
    let mut bar = bar_with(Some(1), vec![1, 2]);
    bar.update_search("th".to_string());
    bar.apply_search_results(vec![cand(1, 0, 1000, 1, Some('e')), cand(5, 3, 100000, 2, Some('i'))], false);
    bar
}

#[test]
fn typing_a_label_jumps_to_its_match() {
    let mut bar = labelled_bar();
    assert_eq!(bar.on_query_editor_event(QueryEditorEvent::BufferEdited("th".to_string())), QueryEditorAction::UpdateSearch);
    assert_eq!(bar.previous_query_length, 2);
    let action = bar.on_query_editor_event(QueryEditorEvent::BufferEdited("ths".to_string()));
    assert_eq!(action, QueryEditorAction::JumpTo(JumpTarget { position: point(5, 3), editor: 2 }));
    assert_eq!(bar.previous_query_length, 3);
}

#[test]
fn a_label_typed_while_the_query_shrinks_does_not_jump() {
    let mut bar = labelled_bar();
    bar.on_query_editor_event(QueryEditorEvent::BufferEdited("thxxa".to_string()));
    let action = bar.on_query_editor_event(QueryEditorEvent::BufferEdited("thxa".to_string()));
    assert_eq!(action, QueryEditorAction::UpdateSearch);
    assert_eq!(bar.previous_query_length, 4);
}

#[test]
fn a_query_not_ending_with_a_label_searches_again() {
    let mut bar = labelled_bar();
    let action = bar.on_query_editor_event(QueryEditorEvent::BufferEdited("the".to_string()));
    assert_eq!(action, QueryEditorAction::UpdateSearch);
    // labels are compared with their case
    let action = bar.on_query_editor_event(QueryEditorEvent::BufferEdited("theA".to_string()));
    assert_eq!(action, QueryEditorAction::UpdateSearch);
}

#[test]
fn without_matches_no_label_jumps() {
    let mut bar = bar_with(Some(1), vec![1]);
    let action = bar.on_query_editor_event(QueryEditorEvent::BufferEdited("a".to_string()));
    assert_eq!(action, QueryEditorAction::UpdateSearch);
}

#[test]
fn focus_events_are_tracked() {
    let mut bar = bar_with(None, vec![]);
    assert_eq!(bar.on_query_editor_event(QueryEditorEvent::Focused), QueryEditorAction::Nothing);
    assert!(bar.query_editor_focused);
    assert_eq!(bar.on_query_editor_event(QueryEditorEvent::Other), QueryEditorAction::Nothing);
    assert!(bar.query_editor_focused);
    assert_eq!(bar.on_query_editor_event(QueryEditorEvent::Blurred), QueryEditorAction::Nothing);
    assert!(!bar.query_editor_focused);
}

#[test]
fn dismissing_clears_every_visible_editor() {
    let bar = bar_with(Some(1), vec![4, 1, 9]);
    let plan = bar.on_before_dismiss();
    assert_eq!(plan.clear_labels, vec![4, 1, 9]);
    assert_eq!(plan.decision, DismissDecision::Dismiss(true));
}

#[test]
fn visible_editors_are_listed_once_in_order() {
    let panes = vec![vec![Some(3), None, Some(1)], vec![], vec![Some(1), Some(5), Some(3)]];
    assert_eq!(visible_editors(&panes), vec![3, 1, 5]);
    assert!(visible_editors(&vec![vec![None]]).is_empty());
}

#[test]
fn toggle_opens_over_the_visible_editors() {
    let panes = vec![vec![Some(2), Some(2)], vec![Some(8)]];
    let bar = JumpBar::toggle(Some(8), &panes);
    assert_eq!(bar.visible_editors, vec![2, 8]);
    assert_eq!(bar.active_editor, Some(8));
    assert!(bar.matches.is_empty());
}

#[test]
fn a_jump_activates_the_first_item_showing_the_editor() {
    let panes = vec![vec![None, Some(4)], vec![Some(6), Some(7), Some(6)], vec![Some(6)]];
    assert_eq!(locate_editor(&panes, 6), Some((1, 0)));
    assert_eq!(locate_editor(&panes, 4), Some((0, 1)));
    assert_eq!(locate_editor(&panes, 9), None);
    let target = JumpTarget { position: point(3, 1), editor: 7 };
    let plan = JumpBar::jump_to_position(&panes, target);
    assert_eq!(plan.activate, Some((1, 1)));
    assert_eq!(plan.target, target);
    let plan = JumpBar::jump_to_position(&panes, JumpTarget { position: point(0, 0), editor: 1 });
    assert_eq!(plan.activate, None);
}

#[test]
fn autojump_is_off_unless_set() {
    let none = SettingsContent { jump: None };
    assert!(!JumpSettings::from_settings(&none).autojump);
    let unset = SettingsContent { jump: Some(JumpSettingsContent { autojump: None }) };
    assert!(!JumpSettings::from_settings(&unset).autojump);
    let on = SettingsContent { jump: Some(JumpSettingsContent { autojump: Some(true) }) };
    assert!(JumpSettings::from_settings(&on).autojump);
    let off = SettingsContent { jump: Some(JumpSettingsContent { autojump: Some(false) }) };
    assert!(!JumpSettings::from_settings(&off).autojump);
}

#[test]
fn toggle_focuses_by_default() {
    assert!(Toggle::default().focus);
    assert_ne!(Event::UpdateLocation, Event::Dismiss);
}

#[test]
fn jump_matches_keep_their_candidates() {
    let candidates = vec![cand(1, 2, 1002, 5, Some('z'))];
    let matches: Vec<JumpMatch> = rank_and_label(&candidates);
    assert_eq!(matches[0].position, point(1, 2));
    assert_eq!(matches[0].distance, 1002);
    assert_eq!(matches[0].editor, 5);
    assert_eq!(matches[0].next_char, Some('z'));
    assert_eq!(matches[0].label, "a");
}
