use std::collections::HashSet;
use vstd::prelude::*;

use crate::ranking::MatchCandidate;
use crate::text_search::{ascii_lower, ascii_upper, to_ascii_lowercase, to_ascii_uppercase};

verus! {

broadcast use vstd::std_specs::hash::group_hash_axioms;

/// The label characters in order of priority: the home row, the top row and
/// the bottom row of the keyboard, then the same keys with shift.
pub open spec fn priority_chars() -> Seq<char> {
    seq![
        'a', 's', 'd', 'f', 'g', 'h', 'j', 'k', 'l', ';', 'w', 'e', 'r', 'u', 'i', 'o', 'p', 't',
        'y', 'z', 'x', 'c', 'v', 'b', 'n', 'm', ',',
        'A', 'S', 'D', 'F', 'G', 'H', 'J', 'K', 'L', ':', 'W', 'E', 'R', 'U', 'I', 'O', 'P', 'T',
        'Y', 'Z', 'X', 'C', 'V', 'B', 'N', 'M', '<',
    ]
}

/// A label character may be used unless its lower case is forbidden (given as
/// code points). Every label character is ASCII, so its lower case is its
/// ASCII lower case.
pub open spec fn label_allowed(forbidden: Set<u32>, c: char) -> bool {
    !forbidden.contains(ascii_lower(c) as u32)
}

/// The label characters that may be used, in order of priority.
pub open spec fn available_labels(forbidden: Set<u32>) -> Seq<char> {
    priority_chars().filter(|c: char| label_allowed(forbidden, c))
}

pub open spec fn min(a: int, b: int) -> int {
    if a <= b {
        a
    } else {
        b
    }
}

/// `k` is the code point of the character after the candidate, in ASCII
/// lower or upper case.
pub open spec fn code_follows(candidate: MatchCandidate, k: u32) -> bool {
    match candidate.next_char {
        Some(n) => k == ascii_lower(n) as u32 || k == ascii_upper(n) as u32,
        None => false,
    }
}

/// The characters that must not start a label because a match is followed by
/// them, in ASCII lower and upper case, as code points.
pub open spec fn forbidden_codes(candidates: Seq<MatchCandidate>) -> Set<u32> {
    Set::new(
        |k: u32|
            exists|i: int|
                0 <= i < candidates.len() && #[trigger] code_follows(candidates[i], k),
    )
}

fn priority_chars_vec() -> (v: Vec<char>)
    ensures
        v@ == priority_chars(),
{
    let v = vec![
        'a', 's', 'd', 'f', 'g', 'h', 'j', 'k', 'l', ';', 'w', 'e', 'r', 'u', 'i', 'o', 'p', 't',
        'y', 'z', 'x', 'c', 'v', 'b', 'n', 'm', ',',
        'A', 'S', 'D', 'F', 'G', 'H', 'J', 'K', 'L', ':', 'W', 'E', 'R', 'U', 'I', 'O', 'P', 'T',
        'Y', 'Z', 'X', 'C', 'V', 'B', 'N', 'M', '<',
    ];
    assert(v@ =~= priority_chars());
    v
}

/// `ToString::to_string` on a `char`: the string that holds just that
/// character. The contract claims that the string's characters are exactly
/// the one given.
#[verifier::external_body]
fn char_to_string(c: char) -> (s: String)
    ensures
        s@ == seq![c],
{
    c.to_string()
}

/// Collects the characters that follow the matches, each in ASCII lower and
/// upper case, as code points.
pub fn forbidden_chars(candidates: &Vec<MatchCandidate>) -> (set: HashSet<u32>)
    ensures
        set@ == forbidden_codes(candidates@),
{
    let mut set: HashSet<u32> = HashSet::new();
    let n = candidates.len();
    let mut i: usize = 0;
    while i < n
        invariant
            n == candidates@.len(),
            i <= n,
            set@ == forbidden_codes(candidates@.take(i as int)),
        decreases n - i,
    {
        let ghost before = set@;
        let ghost s0 = candidates@.take(i as int);
        let ghost s1 = candidates@.take(i + 1);
        proof {
            assert(s1 =~= s0.push(candidates@[i as int]));
        }
        match candidates[i].next_char {
            Some(c) => {
                let lower = to_ascii_lowercase(c) as u32;
                let upper = to_ascii_uppercase(c) as u32;
                set.insert(lower);
                set.insert(upper);
                proof {
                    assert forall|k: u32| set@.contains(k) <==> forbidden_codes(s1).contains(k) by {
                        if set@.contains(k) {
                            if before.contains(k) {
                                let j = choose|j: int| 0 <= j < s0.len() && #[trigger] code_follows(s0[j], k);
                                assert(s1[j] == s0[j]);
                            } else {
                                assert(code_follows(s1[i as int], k));
                            }
                        }
                        if forbidden_codes(s1).contains(k) {
                            let j = choose|j: int| 0 <= j < s1.len() && #[trigger] code_follows(s1[j], k);
                            if j < i {
                                assert(s0[j] == s1[j]);
                                assert(forbidden_codes(s0).contains(k));
                            }
                        }
                    }
                    assert(set@ =~= forbidden_codes(s1));
                }
            },
            None => {
                proof {
                    assert forall|k: u32| set@.contains(k) <==> forbidden_codes(s1).contains(k) by {
                        if set@.contains(k) {
                            let j = choose|j: int| 0 <= j < s0.len() && #[trigger] code_follows(s0[j], k);
                            assert(s1[j] == s0[j]);
                        }
                        if forbidden_codes(s1).contains(k) {
                            let j = choose|j: int| 0 <= j < s1.len() && #[trigger] code_follows(s1[j], k);
                            assert(j != i);
                            assert(s0[j] == s1[j]);
                            assert(forbidden_codes(s0).contains(k));
                        }
                    }
                    assert(set@ =~= forbidden_codes(s1));
                }
            },
        }
        i = i + 1;
    }
    proof {
        assert(candidates@.take(n as int) =~= candidates@);
    }
    set
}

/// The jump labels for `count` matches: single characters taken in order of
/// priority, skipping every character whose lower case is in `next_chars`
/// (code points of the characters that follow some match). When fewer
/// characters are left than matches, only that many labels come back.
pub fn generate_labels(count: usize, next_chars: &HashSet<u32>) -> (labels: Vec<String>)
    ensures
        labels@.len() == min(count as int, available_labels(next_chars@).len() as int),
        forall|i: int|
            0 <= i < labels@.len() ==> (#[trigger] labels@[i])@ == seq![available_labels(next_chars@)[i]],
{
    broadcast use vstd::seq_lib::group_seq_properties;
    let mut labels: Vec<String> = Vec::new();
    if count == 0 {
        return labels;
    }
    let ghost forbidden = next_chars@;
    let ghost pred = |c: char| label_allowed(forbidden, c);
    let priority = priority_chars_vec();
    let n = priority.len();
    let mut i: usize = 0;
    while i < n
        invariant
            n == priority@.len(),
            priority@ == priority_chars(),
            forbidden == next_chars@,
            pred == (|c: char| label_allowed(forbidden, c)),
            i <= n,
            count > 0,
            labels@.len() < count || labels@.len() == count,
            labels@.len() == priority@.take(i as int).filter(pred).len(),
            forall|k: int|
                0 <= k < labels@.len() ==> (#[trigger] labels@[k])@ == seq![priority@.take(i as int).filter(pred)[k]],
        ensures
            i == n || labels@.len() == count,
        decreases n - i,
    {
        if labels.len() >= count {
            break;
        }
        let c = priority[i];
        let allowed = !next_chars.contains(&(to_ascii_lowercase(c) as u32));
        proof {
            assert(priority@.take(i + 1) =~= priority@.take(i as int).push(c));
            priority@.take(i as int).lemma_filter_push(c, pred);
        }
        if allowed {
            labels.push(char_to_string(c));
        }
        i = i + 1;
    }
    proof {
        let taken = priority@.take(i as int);
        let rest = priority@.skip(i as int);
        assert(priority@ =~= taken + rest);
        Seq::filter_distributes_over_add(taken, rest, pred);
        assert(available_labels(forbidden) == priority@.filter(pred));
        if i == n {
            assert(taken =~= priority@);
        }
        assert(priority@.filter(pred).len() == taken.filter(pred).len() + rest.filter(pred).len());
        assert forall|k: int| 0 <= k < labels@.len() implies (#[trigger] labels@[k])@ == seq![available_labels(forbidden)[k]] by {
            assert(available_labels(forbidden)[k] == taken.filter(pred)[k]);
        }
    }
    labels
}

} // verus!
