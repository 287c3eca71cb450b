use vstd::prelude::*;

use crate::ranking::EditorId;

verus! {

/// The item at index `k` of pane `p` is the editor `e`.
pub open spec fn shows(panes: Seq<Vec<Option<EditorId>>>, p: int, k: int, e: EditorId) -> bool {
    &&& 0 <= p < panes.len()
    &&& 0 <= k < panes[p]@.len()
    &&& panes[p]@[k] == Some(e)
}

/// Item `(p1, k1)` comes before item `(p2, k2)`: panes in order, and items in
/// order within a pane.
pub open spec fn comes_before(p1: int, k1: int, p2: int, k2: int) -> bool {
    p1 < p2 || (p1 == p2 && k1 < k2)
}

/// Some pane shows the editor.
pub open spec fn is_shown(panes: Seq<Vec<Option<EditorId>>>, e: EditorId) -> bool {
    exists|p: int, k: int| #[trigger] shows(panes, p, k, e)
}

/// The editor is shown somewhere before item `(p, k)`.
pub open spec fn shown_before(panes: Seq<Vec<Option<EditorId>>>, e: EditorId, p: int, k: int) -> bool {
    exists|p2: int, k2: int| #[trigger] shows(panes, p2, k2, e) && comes_before(p2, k2, p, k)
}

/// `a` is shown at an item where `b` has not been shown yet, at or before it.
pub open spec fn shown_first(panes: Seq<Vec<Option<EditorId>>>, a: EditorId, b: EditorId) -> bool {
    exists|p: int, k: int|
        #[trigger] shows(panes, p, k, a) && !shown_before(panes, b, p, k) && !shows(panes, p, k, b)
}

/// `editors` lists every editor that the panes show, each once, in the order
/// in which they first appear.
pub open spec fn lists_visible_editors(panes: Seq<Vec<Option<EditorId>>>, editors: Seq<EditorId>) -> bool {
    &&& editors.no_duplicates()
    &&& forall|e: EditorId| editors.contains(e) <==> is_shown(panes, e)
    &&& forall|i: int, j: int|
        0 <= i < j < editors.len() ==> shown_first(panes, #[trigger] editors[i], #[trigger] editors[j])
}

fn contains_editor(editors: &Vec<EditorId>, e: EditorId) -> (r: bool)
    ensures
        r == editors@.contains(e),
{
    let mut i: usize = 0;
    while i < editors.len()
        invariant
            i <= editors@.len(),
            forall|j: int| 0 <= j < i ==> editors@[j] != e,
        decreases editors@.len() - i,
    {
        if editors[i] == e {
            return true;
        }
        i = i + 1;
    }
    false
}

/// Every editor that the panes show, each once, in the order in which they
/// first appear (panes in order, items in order within a pane). Items that are
/// not editors are `None`.
pub fn visible_editors(panes: &Vec<Vec<Option<EditorId>>>) -> (editors: Vec<EditorId>)
    ensures
        lists_visible_editors(panes@, editors@),
{
    let mut editors: Vec<EditorId> = Vec::new();
    let ghost mut firsts: Seq<(int, int)> = Seq::empty();
    let np = panes.len();
    let mut p: usize = 0;
    while p < np
        invariant
            np == panes@.len(),
            p <= np,
            firsts.len() == editors@.len(),
            editors@.no_duplicates(),
            forall|i: int| 0 <= i < editors@.len() ==> shows(panes@, #[trigger] firsts[i].0, firsts[i].1, editors@[i]),
            forall|i: int| 0 <= i < editors@.len() ==> !shown_before(panes@, #[trigger] editors@[i], firsts[i].0, firsts[i].1),
            forall|i: int| 0 <= i < editors@.len() ==> #[trigger] firsts[i].0 < p,
            forall|i: int, j: int| 0 <= i < j < editors@.len() ==> comes_before(#[trigger] firsts[i].0, firsts[i].1, #[trigger] firsts[j].0, firsts[j].1),
            forall|p2: int, k2: int, e: EditorId| #[trigger] shows(panes@, p2, k2, e) && p2 < p ==> editors@.contains(e),
        decreases np - p,
    {
        let pane = &panes[p];
        let nk = pane.len();
        let mut k: usize = 0;
        while k < nk
            invariant
                np == panes@.len(),
                p < np,
                pane == panes@[p as int],
                nk == pane@.len(),
                k <= nk,
                firsts.len() == editors@.len(),
                editors@.no_duplicates(),
                forall|i: int| 0 <= i < editors@.len() ==> shows(panes@, #[trigger] firsts[i].0, firsts[i].1, editors@[i]),
                forall|i: int| 0 <= i < editors@.len() ==> !shown_before(panes@, #[trigger] editors@[i], firsts[i].0, firsts[i].1),
                forall|i: int| 0 <= i < editors@.len() ==> comes_before(#[trigger] firsts[i].0, firsts[i].1, p as int, k as int),
                forall|i: int, j: int| 0 <= i < j < editors@.len() ==> comes_before(#[trigger] firsts[i].0, firsts[i].1, #[trigger] firsts[j].0, firsts[j].1),
                forall|p2: int, k2: int, e: EditorId| #[trigger] shows(panes@, p2, k2, e) && comes_before(p2, k2, p as int, k as int) ==> editors@.contains(e),
            decreases nk - k,
        {
            let ghost before = editors@;
            if let Some(editor) = pane[k] {
                if !contains_editor(&editors, editor) {
                    proof {
                        assert(!shown_before(panes@, editor, p as int, k as int));
                        firsts = firsts.push((p as int, k as int));
                    }
                    editors.push(editor);
                    assert(editors@[editors@.len() - 1] == editor);
                }
                assert(editors@.contains(editor));
            }
            proof {
                assert forall|p2: int, k2: int, e: EditorId| #[trigger] shows(panes@, p2, k2, e) && comes_before(p2, k2, p as int, k + 1) implies editors@.contains(e) by {
                    if comes_before(p2, k2, p as int, k as int) {
                        assert(before.contains(e));
                        let i = choose|i: int| 0 <= i < before.len() && before[i] == e;
                        assert(editors@[i] == e);
                    } else {
                        assert(p2 == p && k2 == k);
                    }
                }
            }
            k = k + 1;
        }
        p = p + 1;
    }
    proof {
        assert forall|e: EditorId| editors@.contains(e) implies is_shown(panes@, e) by {
            let i = choose|i: int| 0 <= i < editors@.len() && editors@[i] == e;
            assert(shows(panes@, firsts[i].0, firsts[i].1, e));
        }
        assert forall|e: EditorId| is_shown(panes@, e) implies editors@.contains(e) by {
            let (p2, k2) = choose|p2: int, k2: int| #[trigger] shows(panes@, p2, k2, e);
            assert(shows(panes@, p2, k2, e) && p2 < np);
        }
        assert forall|i: int, j: int| 0 <= i < j < editors@.len() implies shown_first(panes@, #[trigger] editors@[i], #[trigger] editors@[j]) by {
            let (pi, ki) = firsts[i];
            assert(shows(panes@, pi, ki, editors@[i]));
            assert(!shown_before(panes@, editors@[j], firsts[j].0, firsts[j].1));
            assert(editors@[i] != editors@[j]);
            if shown_before(panes@, editors@[j], pi, ki) {
                let (p2, k2) = choose|p2: int, k2: int| #[trigger] shows(panes@, p2, k2, editors@[j]) && comes_before(p2, k2, pi, ki);
                assert(shown_before(panes@, editors@[j], firsts[j].0, firsts[j].1));
            }
            if shows(panes@, pi, ki, editors@[j]) {
                assert(shown_before(panes@, editors@[j], firsts[j].0, firsts[j].1));
            }
        }
    }
    editors
}

/// The item that shows `target` first: `(p, k)` shows it and nothing before
/// does.
pub open spec fn first_shown_at(panes: Seq<Vec<Option<EditorId>>>, target: EditorId, p: int, k: int) -> bool {
    shows(panes, p, k, target) && !shown_before(panes, target, p, k)
}

/// Where the editor `target` is: the first pane that shows it, and the first
/// item of that pane that is it; `None` when no pane shows it.
pub fn locate_editor(panes: &Vec<Vec<Option<EditorId>>>, target: EditorId) -> (r: Option<(usize, usize)>)
    ensures
        match r {
            Some((p, k)) => first_shown_at(panes@, target, p as int, k as int),
            None => !is_shown(panes@, target),
        },
{
    let np = panes.len();
    let mut p: usize = 0;
    while p < np
        invariant
            np == panes@.len(),
            p <= np,
            forall|p2: int, k2: int| #[trigger] shows(panes@, p2, k2, target) ==> p2 >= p,
        decreases np - p,
    {
        let pane = &panes[p];
        let nk = pane.len();
        let mut k: usize = 0;
        while k < nk
            invariant
                np == panes@.len(),
                p < np,
                pane == panes@[p as int],
                nk == pane@.len(),
                k <= nk,
                forall|p2: int, k2: int| #[trigger] shows(panes@, p2, k2, target) ==> p2 >= p,
                forall|k2: int| 0 <= k2 < k ==> !shows(panes@, p as int, k2, target),
            decreases nk - k,
        {
            if pane[k] == Some(target) {
                return Some((p, k));
            }
            k = k + 1;
        }
        p = p + 1;
    }
    None
}

} // verus!
