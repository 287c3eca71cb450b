use vstd::prelude::*;
use vstd::string::StringSliceAdditionalSpecFns;
use vstd::utf8::encode_utf8;

use crate::labels::{
    available_labels, code_follows, forbidden_chars, forbidden_codes, generate_labels, min,
};
use crate::panes::{first_shown_at, is_shown, lists_visible_editors, locate_editor, visible_editors};
use crate::ranking::{
    all_candidates, all_distances_fit, build_candidates, is_stable_sort_by_distance,
    lemma_stable_sort_same_candidates, sort_by_distance, DisplayPoint, EditorId, MatchCandidate,
    PlacedMatch,
};

verus! {

broadcast use vstd::string::group_string_axioms;

/// A match on the screen together with the label the user types to jump to it.
#[derive(Debug)]
pub struct JumpMatch {
    /// Where the match starts on the screen of its editor.
    pub position: DisplayPoint,
    /// The label drawn on the match; empty when the labels ran out.
    pub label: String,
    /// How far the match is from the cursor.
    pub distance: u32,
    /// The editor that shows the match.
    pub editor: EditorId,
    /// The character right after the match, if any.
    pub next_char: Option<char>,
}

/// A label as an editor draws it.
#[derive(Debug)]
pub struct JumpLabel {
    pub position: DisplayPoint,
    pub label: String,
    /// Length in bytes of the query, the extent of the highlighted match.
    pub match_length: usize,
}

/// The labels one editor is to draw.
#[derive(Debug)]
pub struct EditorLabels {
    pub editor: EditorId,
    pub labels: Vec<JumpLabel>,
}

/// Where a jump goes: a position in an editor.
#[derive(Clone, Copy, Debug, PartialEq, Eq)]
pub struct JumpTarget {
    pub position: DisplayPoint,
    pub editor: EditorId,
}

/// What the query editor reports to the jump bar.
#[derive(Debug)]
pub enum QueryEditorEvent {
    /// The query was edited; this is its text now.
    BufferEdited(String),
    Focused,
    Blurred,
    /// Any other event of the query editor.
    Other,
}

/// What the jump bar asks for after an event of the query editor.
#[derive(Clone, Copy, Debug, PartialEq, Eq)]
pub enum QueryEditorAction {
    Nothing,
    /// Jump to this target and close the bar.
    JumpTo(JumpTarget),
    /// Search again with the current query.
    UpdateSearch,
}

/// How a new search starts.
#[derive(Clone, Copy, Debug, PartialEq, Eq)]
pub enum SearchStart {
    /// The query is empty: every visible editor drops its labels.
    ClearLabels,
    /// There is no editor whose cursor could rank the matches; nothing changes.
    NoEditors,
    /// Search the visible editors; distances are measured from the cursor of
    /// this editor.
    Search { cursor_editor: EditorId },
}

/// The result of a search: the labels each visible editor is to draw, and a
/// jump when the search jumps by itself.
#[derive(Debug)]
pub struct SearchOutcome {
    pub labels: Vec<EditorLabels>,
    pub jump: Option<JumpTarget>,
}

/// Whether a dismissal goes ahead.
#[derive(Clone, Copy, Debug, PartialEq, Eq)]
pub enum DismissDecision {
    Dismiss(bool),
    Pending,
}

/// What closing the jump bar does: the editors that drop their labels, and the
/// decision.
#[derive(Debug)]
pub struct DismissPlan {
    pub clear_labels: Vec<EditorId>,
    pub decision: DismissDecision,
}

/// What a jump does: activate the item that shows the target editor (pane and
/// item index), when a pane shows it, then move that editor's cursor to the
/// position; the query is then cleared and the bar dismissed.
#[derive(Clone, Copy, Debug, PartialEq, Eq)]
pub struct JumpPlan {
    pub activate: Option<(usize, usize)>,
    pub target: JumpTarget,
}

/// The state of the jump bar.
pub struct JumpBar {
    pub query_editor_focused: bool,
    /// The editor that was active when the bar opened.
    pub active_editor: Option<EditorId>,
    /// Every editor shown in some pane when the bar opened, each once.
    pub visible_editors: Vec<EditorId>,
    pub search_query: String,
    /// Length in bytes of the query at the previous edit.
    pub previous_query_length: usize,
    /// The matches of the last search, nearest first.
    pub matches: Vec<JumpMatch>,
}

/// The bytes of a string.
pub open spec fn utf8(s: Seq<char>) -> Seq<u8> {
    encode_utf8(s)
}

/// Typing `query` selects the match: its label is not empty and the query's
/// bytes end with the label's bytes.
pub open spec fn label_typed(m: JumpMatch, query: Seq<char>) -> bool {
    m.label@.len() > 0 && utf8(m.label@).is_suffix_of(utf8(query))
}

/// Match `i` is the first whose label the query ends with.
pub open spec fn first_typed(matches: Seq<JumpMatch>, query: Seq<char>, i: int) -> bool {
    &&& 0 <= i < matches.len()
    &&& label_typed(matches[i], query)
    &&& forall|j: int| 0 <= j < i ==> !label_typed(#[trigger] matches[j], query)
}

pub open spec fn target_of(m: JumpMatch) -> JumpTarget {
    JumpTarget { position: m.position, editor: m.editor }
}

/// An edit of the query may jump: the query grew, is not empty, and there are
/// matches.
pub open spec fn may_jump(bar: JumpBar, query: Seq<char>) -> bool {
    &&& utf8(query).len() > bar.previous_query_length
    &&& query.len() > 0
    &&& bar.matches@.len() > 0
}

/// Some editor's cursor can rank the matches: an editor was active, or some
/// editor is visible.
pub open spec fn has_cursor_editor(bar: JumpBar) -> bool {
    bar.active_editor is Some || bar.visible_editors@.len() > 0
}

/// The editor whose cursor ranks the matches: the active editor, else the first
/// visible one.
pub open spec fn cursor_editor_of(bar: JumpBar) -> EditorId {
    match bar.active_editor {
        Some(e) => e,
        None => bar.visible_editors@[0],
    }
}

pub open spec fn candidate_of(m: JumpMatch) -> MatchCandidate {
    MatchCandidate {
        position: m.position,
        distance: m.distance,
        editor: m.editor,
        next_char: m.next_char,
    }
}

/// The label of the `i`-th match: the `i`-th available label character, or
/// nothing once they run out.
pub open spec fn label_for(available: Seq<char>, i: int) -> Seq<char> {
    if i < available.len() {
        seq![available[i]]
    } else {
        Seq::empty()
    }
}

/// The matches that an editor labels: its own, with a label.
pub open spec fn labelled_in(matches: Seq<JumpMatch>, editor: EditorId) -> Seq<JumpMatch> {
    matches.filter(|m: JumpMatch| m.editor == editor && m.label@.len() > 0)
}

/// A drawn label shows the given match, highlighted over `match_length` bytes.
pub open spec fn shows_match(l: JumpLabel, m: JumpMatch, match_length: usize) -> bool {
    &&& l.position == m.position
    &&& l.label@ == m.label@
    &&& l.match_length == match_length
}

/// The labels of one editor are those of its labelled matches, in order.
pub open spec fn draws_labels_of(
    labels: Seq<JumpLabel>,
    matches: Seq<JumpMatch>,
    editor: EditorId,
    match_length: usize,
) -> bool {
    let own = labelled_in(matches, editor);
    &&& labels.len() == own.len()
    &&& forall|j: int| 0 <= j < labels.len() ==> shows_match(#[trigger] labels[j], own[j], match_length)
}

/// Whether the bytes of `haystack` end with the bytes of `needle`.
fn bytes_end_with(haystack: &[u8], needle: &[u8]) -> (r: bool)
    ensures
        r == needle@.is_suffix_of(haystack@),
{
    let h = haystack.len();
    let n = needle.len();
    if n > h {
        return false;
    }
    let mut i: usize = 0;
    while i < n
        invariant
            h == haystack@.len(),
            n == needle@.len(),
            n <= h,
            i <= n,
            forall|k: int| 0 <= k < i ==> #[trigger] needle@[k] == haystack@[h - n + k],
        decreases n - i,
    {
        if haystack[h - n + i] != needle[i] {
            assert(needle@[i as int] != haystack@.subrange(h - n, h as int)[i as int]);
            return false;
        }
        i = i + 1;
    }
    assert(needle@ =~= haystack@.subrange(h - n, h as int));
    true
}

fn copy_ids(ids: &Vec<EditorId>) -> (r: Vec<EditorId>)
    ensures
        r@ == ids@,
{
    let mut r: Vec<EditorId> = Vec::new();
    let mut i: usize = 0;
    while i < ids.len()
        invariant
            i <= ids@.len(),
            r@ == ids@.take(i as int),
        decreases ids@.len() - i,
    {
        r.push(ids[i]);
        assert(ids@.take(i + 1) =~= ids@.take(i as int).push(ids@[i as int]));
        i = i + 1;
    }
    assert(ids@.take(ids@.len() as int) =~= ids@);
    r
}

/// The index of the first match whose label `query` ends with.
fn find_typed_label(matches: &Vec<JumpMatch>, query: &String) -> (r: Option<usize>)
    ensures
        match r {
            Some(i) => first_typed(matches@, query@, i as int),
            None => forall|j: int| 0 <= j < matches@.len() ==> !label_typed(#[trigger] matches@[j], query@),
        },
{
    let query_bytes = query.as_str().as_bytes();
    let n = matches.len();
    let mut i: usize = 0;
    while i < n
        invariant
            n == matches@.len(),
            i <= n,
            query_bytes@ == utf8(query@),
            forall|j: int| 0 <= j < i ==> !label_typed(#[trigger] matches@[j], query@),
        decreases n - i,
    {
        let jump_match = &matches[i];
        if !jump_match.label.as_str().is_empty() {
            if bytes_end_with(query_bytes, jump_match.label.as_str().as_bytes()) {
                return Some(i);
            }
        }
        i = i + 1;
    }
    None
}

/// The labels that `editor` draws: one for each of its matches that has a
/// label, in the order of the matches.
pub fn labels_for_editor(matches: &Vec<JumpMatch>, editor: EditorId, match_length: usize) -> (labels:
    Vec<JumpLabel>)
    ensures
        draws_labels_of(labels@, matches@, editor, match_length),
{
    broadcast use vstd::seq_lib::group_seq_properties;
    let ghost pred = |m: JumpMatch| m.editor == editor && m.label@.len() > 0;
    let mut labels: Vec<JumpLabel> = Vec::new();
    let n = matches.len();
    let mut j: usize = 0;
    while j < n
        invariant
            n == matches@.len(),
            j <= n,
            pred == (|m: JumpMatch| m.editor == editor && m.label@.len() > 0),
            draws_labels_of(labels@, matches@.take(j as int), editor, match_length),
        decreases n - j,
    {
        let m = &matches[j];
        proof {
            assert(matches@.take(j + 1) =~= matches@.take(j as int).push(matches@[j as int]));
            matches@.take(j as int).lemma_filter_push(matches@[j as int], pred);
        }
        if m.editor == editor && !m.label.as_str().is_empty() {
            labels.push(JumpLabel { position: m.position, label: m.label.clone(), match_length });
        }
        j = j + 1;
    }
    proof {
        assert(matches@.take(n as int) =~= matches@);
    }
    labels
}

proof fn lemma_same_forbidden(sorted: Seq<MatchCandidate>, original: Seq<MatchCandidate>)
    requires
        is_stable_sort_by_distance(sorted, original),
    ensures
        forbidden_codes(sorted) == forbidden_codes(original),
{
    assert forall|k: u32| forbidden_codes(sorted).contains(k) <==> forbidden_codes(original).contains(k) by {
        if forbidden_codes(sorted).contains(k) {
            let i = choose|i: int| 0 <= i < sorted.len() && #[trigger] code_follows(sorted[i], k);
            lemma_stable_sort_same_candidates(sorted, original, sorted[i]);
            let j = choose|j: int| 0 <= j < original.len() && original[j] == sorted[i];
            assert(code_follows(original[j], k));
        }
        if forbidden_codes(original).contains(k) {
            let i = choose|i: int| 0 <= i < original.len() && #[trigger] code_follows(original[i], k);
            lemma_stable_sort_same_candidates(sorted, original, original[i]);
            let j = choose|j: int| 0 <= j < sorted.len() && sorted[j] == original[i];
            assert(code_follows(sorted[j], k));
        }
    }
    assert(forbidden_codes(sorted) =~= forbidden_codes(original));
}

/// Ranks the candidates and labels them: nearest first (ties keep their
/// order), each getting the next label character in order of priority that
/// no match is followed by.
pub fn rank_and_label(candidates: &Vec<MatchCandidate>) -> (matches: Vec<JumpMatch>)
    ensures
        is_stable_sort_by_distance(matches@.map_values(|m: JumpMatch| candidate_of(m)), candidates@),
        forall|i: int|
            0 <= i < matches@.len() ==> (#[trigger] matches@[i]).label@ == label_for(
                available_labels(forbidden_codes(candidates@)),
                i,
            ),
{
    let sorted = sort_by_distance(candidates);
    let forbidden = forbidden_chars(&sorted);
    let labels = generate_labels(sorted.len(), &forbidden);
    let ghost available = available_labels(forbidden_codes(candidates@));
    proof {
        lemma_same_forbidden(sorted@, candidates@);
    }
    let mut all: Vec<JumpMatch> = Vec::new();
    let n = sorted.len();
    let mut i: usize = 0;
    while i < n
        invariant
            n == sorted@.len(),
            i <= n,
            available == available_labels(forbidden@),
            labels@.len() == min(n as int, available.len() as int),
            forall|k: int| 0 <= k < labels@.len() ==> (#[trigger] labels@[k])@ == seq![available[k]],
            all@.len() == i,
            forall|k: int| 0 <= k < i ==> candidate_of(#[trigger] all@[k]) == sorted@[k],
            forall|k: int| 0 <= k < i ==> (#[trigger] all@[k]).label@ == label_for(available, k),
        decreases n - i,
    {
        let c = sorted[i];
        let label = if i < labels.len() {
            labels[i].clone()
        } else {
            String::new()
        };
        all.push(JumpMatch {
            position: c.position,
            label,
            distance: c.distance,
            editor: c.editor,
            next_char: c.next_char,
        });
        i = i + 1;
    }
    proof {
        assert(all@.map_values(|m: JumpMatch| candidate_of(m)) =~= sorted@);
    }
    all
}

impl JumpBar {
    /// A jump bar opened over the given editors, with an empty query and no
    /// matches.
    pub fn new(active_editor: Option<EditorId>, visible_editors: Vec<EditorId>) -> (bar: JumpBar)
        ensures
            bar.active_editor == active_editor,
            bar.visible_editors@ == visible_editors@,
            !bar.query_editor_focused,
            bar.search_query@ == Seq::<char>::empty(),
            bar.previous_query_length == 0,
            bar.matches@.len() == 0,
    {
        JumpBar {
            query_editor_focused: false,
            active_editor,
            visible_editors,
            search_query: String::new(),
            previous_query_length: 0,
            matches: Vec::new(),
        }
    }

    /// Opens the jump bar over the editors that the panes show (`None` for an
    /// item that is not an editor), each once, in order of first appearance.
    pub fn toggle(active_editor: Option<EditorId>, panes: &Vec<Vec<Option<EditorId>>>) -> (bar: JumpBar)
        ensures
            bar.active_editor == active_editor,
            lists_visible_editors(panes@, bar.visible_editors@),
            !bar.query_editor_focused,
            bar.search_query@ == Seq::<char>::empty(),
            bar.previous_query_length == 0,
            bar.matches@.len() == 0,
    {
        let visible = visible_editors(panes);
        JumpBar::new(active_editor, visible)
    }

    /// Plans a jump to `target`: the first item of the first pane that shows
    /// the target editor is activated, if there is one.
    pub fn jump_to_position(panes: &Vec<Vec<Option<EditorId>>>, target: JumpTarget) -> (plan: JumpPlan)
        ensures
            plan.target == target,
            match plan.activate {
                Some((p, k)) => first_shown_at(panes@, target.editor, p as int, k as int),
                None => !is_shown(panes@, target.editor),
            },
    {
        JumpPlan { activate: locate_editor(panes, target.editor), target }
    }

    /// Handles an event of the query editor. When the query was edited, grew,
    /// and now ends with the label of a match, the bar jumps to the first such
    /// match; otherwise an edit asks for a new search. Either way the length of
    /// the query is remembered. Focus events track whether the query editor
    /// has the focus.
    pub fn on_query_editor_event(&mut self, event: QueryEditorEvent) -> (action: QueryEditorAction)
        ensures
            final(self).active_editor == old(self).active_editor,
            final(self).visible_editors@ == old(self).visible_editors@,
            final(self).search_query@ == old(self).search_query@,
            final(self).matches@ == old(self).matches@,
            match event {
                QueryEditorEvent::BufferEdited(query) => {
                    &&& final(self).previous_query_length == utf8(query@).len()
                    &&& final(self).query_editor_focused == old(self).query_editor_focused
                    &&& if may_jump(*old(self), query@) && exists|i: int| first_typed(old(self).matches@, query@, i) {
                        exists|i: int|
                            first_typed(old(self).matches@, query@, i) && action == QueryEditorAction::JumpTo(
                                target_of(old(self).matches@[i]),
                            )
                    } else {
                        action == QueryEditorAction::UpdateSearch
                    }
                },
                QueryEditorEvent::Focused => {
                    &&& final(self).query_editor_focused
                    &&& final(self).previous_query_length == old(self).previous_query_length
                    &&& action == QueryEditorAction::Nothing
                },
                QueryEditorEvent::Blurred => {
                    &&& !final(self).query_editor_focused
                    &&& final(self).previous_query_length == old(self).previous_query_length
                    &&& action == QueryEditorAction::Nothing
                },
                QueryEditorEvent::Other => {
                    &&& final(self).query_editor_focused == old(self).query_editor_focused
                    &&& final(self).previous_query_length == old(self).previous_query_length
                    &&& action == QueryEditorAction::Nothing
                },
            },
    {
        match event {
            QueryEditorEvent::BufferEdited(query) => {
                let query_bytes = query.as_str().as_bytes();
                let query_len = query_bytes.len();
                if query_len > self.previous_query_length && !query.as_str().is_empty()
                    && self.matches.len() > 0 {
                    if let Some(i) = find_typed_label(&self.matches, &query) {
                        let target = JumpTarget {
                            position: self.matches[i].position,
                            editor: self.matches[i].editor,
                        };
                        self.previous_query_length = query_len;
                        return QueryEditorAction::JumpTo(target);
                    }
                }
                self.previous_query_length = query_len;
                QueryEditorAction::UpdateSearch
            },
            QueryEditorEvent::Focused => {
                self.query_editor_focused = true;
                QueryEditorAction::Nothing
            },
            QueryEditorEvent::Blurred => {
                self.query_editor_focused = false;
                QueryEditorAction::Nothing
            },
            QueryEditorEvent::Other => QueryEditorAction::Nothing,
        }
    }

    /// Starts a search for `query`. An empty query drops every match and asks
    /// the editors to drop their labels. Otherwise distances are measured from
    /// the cursor of the active editor, or of the first visible editor when no
    /// editor was active; with neither, the search stops and nothing changes
    /// but the query.
    pub fn update_search(&mut self, query: String) -> (start: SearchStart)
        ensures
            final(self).search_query@ == query@,
            final(self).active_editor == old(self).active_editor,
            final(self).visible_editors@ == old(self).visible_editors@,
            final(self).previous_query_length == old(self).previous_query_length,
            final(self).query_editor_focused == old(self).query_editor_focused,
            query@.len() == 0 ==> start == SearchStart::ClearLabels && final(self).matches@.len() == 0,
            query@.len() > 0 ==> final(self).matches@ == old(self).matches@,
            query@.len() > 0 ==> start == match old(self).active_editor {
                Some(e) => SearchStart::Search { cursor_editor: e },
                None => if old(self).visible_editors@.len() > 0 {
                    SearchStart::Search { cursor_editor: old(self).visible_editors@[0] }
                } else {
                    SearchStart::NoEditors
                },
            },
    {
        let empty = query.as_str().is_empty();
        self.search_query = query;
        if empty {
            self.matches = Vec::new();
            return SearchStart::ClearLabels;
        }
        match self.active_editor {
            Some(e) => SearchStart::Search { cursor_editor: e },
            None => {
                if self.visible_editors.len() > 0 {
                    SearchStart::Search { cursor_editor: self.visible_editors[0] }
                } else {
                    SearchStart::NoEditors
                }
            },
        }
    }

    /// The candidates of a search: the occurrences found in each visible
    /// editor (`found[k]` for the `k`-th, in buffer order), editor by editor,
    /// measured from `cursor` in `cursor_editor`.
    pub fn search_candidates(&self, cursor_editor: EditorId, cursor: DisplayPoint, found: &Vec<Vec<PlacedMatch>>) -> (candidates:
        Vec<MatchCandidate>)
        requires
            self.visible_editors@.len() == found@.len(),
            all_distances_fit(self.visible_editors@, found@, cursor_editor, cursor),
        ensures
            candidates@ == all_candidates(self.visible_editors@, found@, cursor_editor, cursor),
    {
        build_candidates(&self.visible_editors, cursor_editor, cursor, found)
    }

    /// Finishes a search from the occurrences found in each visible editor
    /// (`found[k]` for the `k`-th, placed on its screen, in buffer order),
    /// with the cursor of the cursor editor at `cursor`: measures them (the
    /// cursor editor paying no penalty), then ranks, labels and draws them as
    /// `apply_search_results` does.
    pub fn complete_search(&mut self, cursor: DisplayPoint, found: &Vec<Vec<PlacedMatch>>, autojump: bool) -> (outcome:
        SearchOutcome)
        requires
            has_cursor_editor(*old(self)),
            old(self).visible_editors@.len() == found@.len(),
            all_distances_fit(old(self).visible_editors@, found@, cursor_editor_of(*old(self)), cursor),
        ensures
            final(self).search_query@ == old(self).search_query@,
            final(self).active_editor == old(self).active_editor,
            final(self).visible_editors@ == old(self).visible_editors@,
            final(self).previous_query_length == old(self).previous_query_length,
            final(self).query_editor_focused == old(self).query_editor_focused,
            ({
                let candidates = all_candidates(
                    old(self).visible_editors@,
                    found@,
                    cursor_editor_of(*old(self)),
                    cursor,
                );
                &&& is_stable_sort_by_distance(
                    final(self).matches@.map_values(|m: JumpMatch| candidate_of(m)),
                    candidates,
                )
                &&& forall|i: int|
                    0 <= i < final(self).matches@.len() ==> (#[trigger] final(self).matches@[i]).label@
                        == label_for(available_labels(forbidden_codes(candidates)), i)
            }),
            outcome.labels@.len() == old(self).visible_editors@.len(),
            forall|k: int|
                0 <= k < outcome.labels@.len() ==> (#[trigger] outcome.labels@[k]).editor
                    == old(self).visible_editors@[k] && draws_labels_of(
                    outcome.labels@[k].labels@,
                    final(self).matches@,
                    old(self).visible_editors@[k],
                    utf8(old(self).search_query@).len() as usize,
                ),
            outcome.jump == if autojump && final(self).matches@.len() == 1 {
                Some(target_of(final(self).matches@[0]))
            } else {
                None
            },
    {
        let cursor_editor = match self.active_editor {
            Some(e) => e,
            None => self.visible_editors[0],
        };
        let candidates = self.search_candidates(cursor_editor, cursor, found);
        self.apply_search_results(candidates, autojump)
    }

    /// Finishes a search with the matches found in the visible editors,
    /// already placed on the screen and measured from the cursor: ranks and
    /// labels them, keeps them as the bar's matches, and tells each visible
    /// editor which labels to draw, each highlighting the query's length. With
    /// autojump on and exactly one match, the bar jumps to it.
    pub fn apply_search_results(&mut self, candidates: Vec<MatchCandidate>, autojump: bool) -> (outcome:
        SearchOutcome)
        ensures
            final(self).search_query@ == old(self).search_query@,
            final(self).active_editor == old(self).active_editor,
            final(self).visible_editors@ == old(self).visible_editors@,
            final(self).previous_query_length == old(self).previous_query_length,
            final(self).query_editor_focused == old(self).query_editor_focused,
            is_stable_sort_by_distance(
                final(self).matches@.map_values(|m: JumpMatch| candidate_of(m)),
                candidates@,
            ),
            forall|i: int|
                0 <= i < final(self).matches@.len() ==> (#[trigger] final(self).matches@[i]).label@
                    == label_for(available_labels(forbidden_codes(candidates@)), i),
            outcome.labels@.len() == old(self).visible_editors@.len(),
            forall|k: int|
                0 <= k < outcome.labels@.len() ==> (#[trigger] outcome.labels@[k]).editor
                    == old(self).visible_editors@[k] && draws_labels_of(
                    outcome.labels@[k].labels@,
                    final(self).matches@,
                    old(self).visible_editors@[k],
                    utf8(old(self).search_query@).len() as usize,
                ),
            outcome.jump == if autojump && final(self).matches@.len() == 1 {
                Some(target_of(final(self).matches@[0]))
            } else {
                None
            },
    {
        let all = rank_and_label(&candidates);
        let match_length = self.search_query.as_str().as_bytes().len();
        let mut groups: Vec<EditorLabels> = Vec::new();
        let n = self.visible_editors.len();
        let mut k: usize = 0;
        while k < n
            invariant
                n == self.visible_editors@.len(),
                self.visible_editors@ == old(self).visible_editors@,
                match_length == utf8(old(self).search_query@).len(),
                k <= n,
                groups@.len() == k,
                forall|t: int|
                    0 <= t < k ==> (#[trigger] groups@[t]).editor == self.visible_editors@[t]
                        && draws_labels_of(groups@[t].labels@, all@, self.visible_editors@[t], match_length),
            decreases n - k,
        {
            let editor = self.visible_editors[k];
            let labels = labels_for_editor(&all, editor, match_length);
            groups.push(EditorLabels { editor, labels });
            k = k + 1;
        }
        self.matches = all;
        let jump = if autojump && self.matches.len() == 1 {
            Some(JumpTarget { position: self.matches[0].position, editor: self.matches[0].editor })
        } else {
            None
        };
        SearchOutcome { labels: groups, jump }
    }

    /// Closing the bar: every visible editor drops its labels, and the bar is
    /// dismissed.
    pub fn on_before_dismiss(&self) -> (plan: DismissPlan)
        ensures
            plan.clear_labels@ == self.visible_editors@,
            plan.decision == DismissDecision::Dismiss(true),
    {
        DismissPlan { clear_labels: copy_ids(&self.visible_editors), decision: DismissDecision::Dismiss(true) }
    }
}

} // verus!
