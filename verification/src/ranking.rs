use vstd::prelude::*;

verus! {

/// Identifies an editor (its entity id).
pub type EditorId = u64;

/// A position on the screen of an editor: display row and column.
#[derive(Clone, Copy, Debug, PartialEq, Eq)]
pub struct DisplayPoint {
    pub row: u32,
    pub column: u32,
}

/// An occurrence of the query placed in an editor and ranked by its distance
/// from the cursor.
#[derive(Clone, Copy, Debug, PartialEq, Eq)]
pub struct MatchCandidate {
    /// Where the occurrence starts on the screen.
    pub position: DisplayPoint,
    /// How far it is from the cursor; smaller is nearer.
    pub distance: u32,
    /// The editor that shows it.
    pub editor: EditorId,
    /// The character right after the occurrence, if the buffer goes on.
    pub next_char: Option<char>,
}

/// What each editor other than the cursor's adds to the distance of its
/// matches.
pub open spec fn editor_penalty(is_active: bool) -> int {
    if is_active {
        0
    } else {
        100000
    }
}

/// The difference of two screen coordinates, each first read as an `i32`.
pub open spec fn signed_delta(a: u32, b: u32) -> int {
    (a as i32) as int - (b as i32) as int
}

pub open spec fn abs(x: int) -> int {
    if x < 0 {
        -x
    } else {
        x
    }
}

/// Rows count a thousand times as much as columns.
pub open spec fn point_distance(point: DisplayPoint, cursor: DisplayPoint) -> int {
    abs(signed_delta(point.row, cursor.row)) * 1000 + abs(signed_delta(point.column, cursor.column))
}

/// The distance of a match at `point`, with the penalty of an editor that is
/// not the cursor's.
pub open spec fn match_distance_spec(point: DisplayPoint, cursor: DisplayPoint, is_active: bool) -> int {
    point_distance(point, cursor) + editor_penalty(is_active)
}

/// Every step of the distance computation stays inside its machine type: both
/// differences fit an `i32`, and the distance with its penalty fits a `u32`.
pub open spec fn distance_fits(point: DisplayPoint, cursor: DisplayPoint, is_active: bool) -> bool {
    &&& i32::MIN <= signed_delta(point.row, cursor.row) <= i32::MAX
    &&& i32::MIN <= signed_delta(point.column, cursor.column) <= i32::MAX
    &&& match_distance_spec(point, cursor, is_active) <= u32::MAX
}

/// Whether `match_distance` can be computed for these arguments.
pub fn distance_in_range(point: DisplayPoint, cursor: DisplayPoint, is_active: bool) -> (r: bool)
    ensures
        r == distance_fits(point, cursor, is_active),
{
    let dr: i64 = (point.row as i32) as i64 - (cursor.row as i32) as i64;
    let dc: i64 = (point.column as i32) as i64 - (cursor.column as i32) as i64;
    if dr < i32::MIN as i64 || dr > i32::MAX as i64 || dc < i32::MIN as i64 || dc > i32::MAX as i64 {
        return false;
    }
    let ar: u64 = if dr < 0 { (0 - dr) as u64 } else { dr as u64 };
    let ac: u64 = if dc < 0 { (0 - dc) as u64 } else { dc as u64 };
    let penalty: u64 = if is_active { 0 } else { 100000 };
    ar * 1000 + ac + penalty <= u32::MAX as u64
}

fn unsigned_abs(x: i32) -> (r: u32)
    ensures
        r == abs(x as int),
{
    if x < 0 {
        (0 - (x as i64)) as u32
    } else {
        x as u32
    }
}

/// The distance of a match at `point` from the cursor at `cursor`: the row
/// difference times a thousand plus the column difference, plus a fixed
/// penalty when the match is not in the cursor's editor.
pub fn match_distance(point: DisplayPoint, cursor: DisplayPoint, is_active: bool) -> (d: u32)
    requires
        distance_fits(point, cursor, is_active),
    ensures
        d == match_distance_spec(point, cursor, is_active),
{
    let dy = unsigned_abs(point.row as i32 - cursor.row as i32);
    let dx = unsigned_abs(point.column as i32 - cursor.column as i32);
    let distance = dy * 1000 + dx;
    let editor_distance_penalty: u32 = if is_active { 0 } else { 100000 };
    distance + editor_distance_penalty
}

/// An occurrence of the query placed on the screen of its editor.
#[derive(Clone, Copy, Debug, PartialEq, Eq)]
pub struct PlacedMatch {
    /// Where the occurrence starts on the screen.
    pub position: DisplayPoint,
    /// The character right after the occurrence, if the buffer goes on.
    pub next_char: Option<char>,
}

/// The candidate for an occurrence in `editor`, measured from the cursor of
/// `cursor_editor` at `cursor`.
pub open spec fn candidate_for(
    m: PlacedMatch,
    editor: EditorId,
    cursor_editor: EditorId,
    cursor: DisplayPoint,
) -> MatchCandidate {
    MatchCandidate {
        position: m.position,
        distance: match_distance_spec(m.position, cursor, editor == cursor_editor) as u32,
        editor,
        next_char: m.next_char,
    }
}

/// The candidates of every editor in turn, each editor's in the order of its
/// occurrences.
pub open spec fn all_candidates(
    editors: Seq<EditorId>,
    found: Seq<Vec<PlacedMatch>>,
    cursor_editor: EditorId,
    cursor: DisplayPoint,
) -> Seq<MatchCandidate> {
    Seq::new(
        editors.len(),
        |k: int| found[k]@.map_values(|m: PlacedMatch| candidate_for(m, editors[k], cursor_editor, cursor)),
    ).flatten()
}

/// Every occurrence's distance can be computed.
pub open spec fn all_distances_fit(
    editors: Seq<EditorId>,
    found: Seq<Vec<PlacedMatch>>,
    cursor_editor: EditorId,
    cursor: DisplayPoint,
) -> bool {
    forall|k: int, j: int|
        0 <= k < editors.len() && 0 <= j < found[k]@.len() ==> distance_fits(
            #[trigger] found[k]@[j].position,
            cursor,
            editors[k] == cursor_editor,
        )
}

/// Whether `build_candidates` can measure every occurrence.
pub fn distances_in_range(
    editors: &Vec<EditorId>,
    cursor_editor: EditorId,
    cursor: DisplayPoint,
    found: &Vec<Vec<PlacedMatch>>,
) -> (r: bool)
    requires
        editors@.len() == found@.len(),
    ensures
        r == all_distances_fit(editors@, found@, cursor_editor, cursor),
{
    let n = editors.len();
    let mut k: usize = 0;
    while k < n
        invariant
            n == editors@.len(),
            n == found@.len(),
            k <= n,
            forall|k2: int, j: int|
                0 <= k2 < k && 0 <= j < found@[k2]@.len() ==> distance_fits(
                    #[trigger] found@[k2]@[j].position,
                    cursor,
                    editors@[k2] == cursor_editor,
                ),
        decreases n - k,
    {
        let own = &found[k];
        let is_active = editors[k] == cursor_editor;
        let mut j: usize = 0;
        while j < own.len()
            invariant
                n == editors@.len(),
                n == found@.len(),
                k < n,
                own == found@[k as int],
                is_active == (editors@[k as int] == cursor_editor),
                j <= own@.len(),
                forall|k2: int, j2: int|
                    0 <= k2 < k && 0 <= j2 < found@[k2]@.len() ==> distance_fits(
                        #[trigger] found@[k2]@[j2].position,
                        cursor,
                        editors@[k2] == cursor_editor,
                    ),
                forall|j2: int| 0 <= j2 < j ==> distance_fits(
                    #[trigger] own@[j2].position,
                    cursor,
                    is_active,
                ),
            decreases own@.len() - j,
        {
            if !distance_in_range(own[j].position, cursor, is_active) {
                return false;
            }
            j = j + 1;
        }
        proof {
            assert forall|k2: int, j2: int|
                0 <= k2 < k + 1 && 0 <= j2 < found@[k2]@.len() implies distance_fits(
                    #[trigger] found@[k2]@[j2].position,
                    cursor,
                    editors@[k2] == cursor_editor,
                ) by {
                if k2 == k {
                    assert(own@[j2] == found@[k2]@[j2]);
                }
            }
        }
        k = k + 1;
    }
    true
}

/// Turns the occurrences found in each editor (`found[k]` for `editors[k]`,
/// in buffer order) into candidates: editor by editor, each occurrence with
/// its distance from the cursor, the cursor's editor paying no penalty.
pub fn build_candidates(
    editors: &Vec<EditorId>,
    cursor_editor: EditorId,
    cursor: DisplayPoint,
    found: &Vec<Vec<PlacedMatch>>,
) -> (candidates: Vec<MatchCandidate>)
    requires
        editors@.len() == found@.len(),
        all_distances_fit(editors@, found@, cursor_editor, cursor),
    ensures
        candidates@ == all_candidates(editors@, found@, cursor_editor, cursor),
{
    broadcast use vstd::seq_lib::group_seq_properties;
    let ghost per_editor = Seq::new(
        editors@.len(),
        |k: int| found@[k]@.map_values(|m: PlacedMatch| candidate_for(m, editors@[k], cursor_editor, cursor)),
    );
    let mut candidates: Vec<MatchCandidate> = Vec::new();
    let n = editors.len();
    let mut k: usize = 0;
    while k < n
        invariant
            n == editors@.len(),
            n == found@.len(),
            k <= n,
            all_distances_fit(editors@, found@, cursor_editor, cursor),
            per_editor == Seq::new(
                editors@.len(),
                |k: int| found@[k]@.map_values(|m: PlacedMatch| candidate_for(m, editors@[k], cursor_editor, cursor)),
            ),
            candidates@ == per_editor.take(k as int).flatten(),
        decreases n - k,
    {
        let editor = editors[k];
        let is_active = editor == cursor_editor;
        let own = &found[k];
        let ghost before = candidates@;
        let m = own.len();
        let mut j: usize = 0;
        while j < m
            invariant
                n == editors@.len(),
                n == found@.len(),
                k < n,
                own == found@[k as int],
                m == own@.len(),
                editor == editors@[k as int],
                is_active == (editor == cursor_editor),
                j <= m,
                all_distances_fit(editors@, found@, cursor_editor, cursor),
                per_editor == Seq::new(
                    editors@.len(),
                    |k: int| found@[k]@.map_values(|m: PlacedMatch| candidate_for(m, editors@[k], cursor_editor, cursor)),
                ),
                candidates@ == before + per_editor[k as int].take(j as int),
            decreases m - j,
        {
            let placed = own[j];
            assert(distance_fits(found@[k as int]@[j as int].position, cursor, editors@[k as int] == cursor_editor));
            let distance = match_distance(placed.position, cursor, is_active);
            candidates.push(MatchCandidate {
                position: placed.position,
                distance,
                editor,
                next_char: placed.next_char,
            });
            assert(per_editor[k as int].take(j + 1) =~= per_editor[k as int].take(j as int).push(per_editor[k as int][j as int]));
            assert(candidates@ =~= before + per_editor[k as int].take(j + 1));
            j = j + 1;
        }
        proof {
            assert(per_editor[k as int].take(m as int) =~= per_editor[k as int]);
            assert(per_editor.take(k + 1) =~= per_editor.take(k as int).push(per_editor[k as int]));
            per_editor.take(k as int).lemma_flatten_push(per_editor[k as int]);
        }
        k = k + 1;
    }
    proof {
        assert(per_editor.take(n as int) =~= per_editor);
    }
    candidates
}

/// The candidates whose distance is `d`, in their order.
pub open spec fn with_distance(s: Seq<MatchCandidate>, d: u32) -> Seq<MatchCandidate> {
    s.filter(|c: MatchCandidate| c.distance == d)
}

pub open spec fn sorted_by_distance(s: Seq<MatchCandidate>) -> bool {
    forall|i: int, j: int| 0 <= i < j < s.len() ==> #[trigger] s[i].distance <= #[trigger] s[j].distance
}

/// `sorted` is `original` sorted by distance, keeping the order of candidates
/// at equal distance.
pub open spec fn is_stable_sort_by_distance(sorted: Seq<MatchCandidate>, original: Seq<MatchCandidate>) -> bool {
    &&& sorted.len() == original.len()
    &&& sorted_by_distance(sorted)
    &&& forall|d: u32| #[trigger] with_distance(sorted, d) == with_distance(original, d)
}

proof fn lemma_insert_split(s: Seq<MatchCandidate>, p: int, x: MatchCandidate)
    requires
        0 <= p <= s.len(),
    ensures
        s.insert(p, x) == s.subrange(0, p) + seq![x] + s.subrange(p, s.len() as int),
        s == s.subrange(0, p) + s.subrange(p, s.len() as int),
{
    assert(s.insert(p, x) =~= s.subrange(0, p) + seq![x] + s.subrange(p, s.len() as int));
    assert(s =~= s.subrange(0, p) + s.subrange(p, s.len() as int));
}

proof fn lemma_filter_all_other(s: Seq<MatchCandidate>, d: u32)
    requires
        forall|i: int| 0 <= i < s.len() ==> (#[trigger] s[i]).distance != d,
    ensures
        with_distance(s, d) == Seq::<MatchCandidate>::empty(),
    decreases s.len(),
{
    broadcast use vstd::seq_lib::group_seq_properties;
    if s.len() > 0 {
        let pred = |c: MatchCandidate| c.distance == d;
        assert(s =~= s.drop_last().push(s.last()));
        lemma_filter_all_other(s.drop_last(), d);
        s.drop_last().lemma_filter_push(s.last(), pred);
    }
}

proof fn lemma_insert_keeps_group(
    s: Seq<MatchCandidate>,
    p: int,
    x: MatchCandidate,
    prefix: Seq<MatchCandidate>,
    d: u32,
)
    requires
        0 <= p <= s.len(),
        with_distance(s, d) == with_distance(prefix, d),
        forall|k: int| 0 <= k < p ==> (#[trigger] s[k]).distance <= x.distance,
        forall|k: int| p <= k < s.len() ==> (#[trigger] s[k]).distance > x.distance,
    ensures
        with_distance(s.insert(p, x), d) == with_distance(prefix.push(x), d),
{
    broadcast use vstd::seq_lib::group_seq_properties;
    let pred = |c: MatchCandidate| c.distance == d;
    lemma_insert_split(s, p, x);
    let front = s.subrange(0, p);
    let back = s.subrange(p, s.len() as int);
    Seq::filter_distributes_over_add(front + seq![x], back, pred);
    Seq::filter_distributes_over_add(front, seq![x], pred);
    Seq::filter_distributes_over_add(front, back, pred);
    prefix.lemma_filter_push(x, pred);
    let empty = Seq::<MatchCandidate>::empty();
    assert(seq![x] =~= empty.push(x));
    empty.lemma_filter_push(x, pred);
    empty.lemma_filter_len(pred);
    assert(empty.filter(pred) =~= empty);
    if x.distance == d {
        assert forall|i: int| 0 <= i < back.len() implies (#[trigger] back[i]).distance != d by {
            assert(back[i] == s[p + i]);
        }
        lemma_filter_all_other(back, d);
        assert(with_distance(s.insert(p, x), d) =~= with_distance(prefix.push(x), d));
    } else {
        assert(with_distance(s.insert(p, x), d) =~= with_distance(prefix.push(x), d));
    }
}

/// A stable sort keeps exactly the candidates it was given.
pub proof fn lemma_stable_sort_same_candidates(sorted: Seq<MatchCandidate>, original: Seq<MatchCandidate>, x: MatchCandidate)
    requires
        is_stable_sort_by_distance(sorted, original),
    ensures
        sorted.contains(x) <==> original.contains(x),
{
    broadcast use vstd::seq_lib::group_seq_properties;
    let pred = |c: MatchCandidate| c.distance == x.distance;
    assert(with_distance(sorted, x.distance) == with_distance(original, x.distance));
    if sorted.contains(x) {
        let i = choose|i: int| 0 <= i < sorted.len() && sorted[i] == x;
        sorted.lemma_filter_contains(pred, i);
        original.lemma_filter_contains_rev(pred, x);
    }
    if original.contains(x) {
        let i = choose|i: int| 0 <= i < original.len() && original[i] == x;
        original.lemma_filter_contains(pred, i);
        sorted.lemma_filter_contains_rev(pred, x);
    }
}

/// Sorts the candidates by distance, nearest first; candidates at the same
/// distance keep their order.
pub fn sort_by_distance(candidates: &Vec<MatchCandidate>) -> (sorted: Vec<MatchCandidate>)
    ensures
        is_stable_sort_by_distance(sorted@, candidates@),
{
    broadcast use vstd::seq_lib::group_seq_properties;
    let mut sorted: Vec<MatchCandidate> = Vec::new();
    let n = candidates.len();
    let mut i: usize = 0;
    while i < n
        invariant
            n == candidates@.len(),
            i <= n,
            sorted@.len() == i,
            sorted_by_distance(sorted@),
            forall|d: u32| #[trigger] with_distance(sorted@, d) == with_distance(candidates@.take(i as int), d),
        decreases n - i,
    {
        let x = candidates[i];
        let mut p: usize = 0;
        while p < sorted.len() && sorted[p].distance <= x.distance
            invariant
                p <= sorted@.len(),
                forall|k: int| 0 <= k < p ==> (#[trigger] sorted@[k]).distance <= x.distance,
            decreases sorted@.len() - p,
        {
            p = p + 1;
        }
        let ghost old_sorted = sorted@;
        proof {
            assert forall|k: int| p <= k < old_sorted.len() implies (#[trigger] old_sorted[k]).distance > x.distance by {
                assert(old_sorted[p as int].distance > x.distance);
            }
        }
        sorted.insert(p, x);
        proof {
            lemma_insert_split(old_sorted, p as int, x);
            let front = old_sorted.subrange(0, p as int);
            let back = old_sorted.subrange(p as int, old_sorted.len() as int);
            assert(candidates@.take(i + 1) =~= candidates@.take(i as int).push(x));
            assert forall|d: u32| #[trigger] with_distance(sorted@, d) == with_distance(candidates@.take(i + 1), d) by {
                lemma_insert_keeps_group(old_sorted, p as int, x, candidates@.take(i as int), d);
            }
            assert forall|a: int, b: int| 0 <= a < b < sorted@.len() implies #[trigger] sorted@[a].distance <= #[trigger] sorted@[b].distance by {
                if a < p && b > p {
                    assert(sorted@[a] == old_sorted[a]);
                    assert(sorted@[b] == old_sorted[b - 1]);
                } else if a < p && b == p {
                } else if a == p {
                    assert(sorted@[b] == old_sorted[b - 1]);
                } else if a > p {
                    assert(sorted@[a] == old_sorted[a - 1]);
                    assert(sorted@[b] == old_sorted[b - 1]);
                } else {
                    assert(sorted@[a] == old_sorted[a]);
                    assert(sorted@[b] == old_sorted[b]);
                }
            }
        }
        i = i + 1;
    }
    proof {
        assert(candidates@.take(n as int) =~= candidates@);
    }
    sorted
}

} // verus!
