//! Title matching for MyAnimeList lookups: Levenshtein distance.
use vstd::prelude::*;
use crate::text::chars_of;

verus! {

/// A MyAnimeList search hit.
#[derive(Debug, Clone)]
pub struct SearchResult {
    pub title: String,
    pub id: String,
}

/// The edit distance between the first `i` characters of `a` and the first
/// `j` of `b`: the fewest insertions, deletions and substitutions that turn
/// one into the other.
pub open spec fn edit_distance(a: Seq<char>, b: Seq<char>, i: nat, j: nat) -> nat
    decreases i + j,
{
    if i == 0 {
        j
    } else if j == 0 {
        i
    } else {
        let cost: nat = if a[i - 1] == b[j - 1] { 0 } else { 1 };
        let del = edit_distance(a, b, (i - 1) as nat, j) + 1;
        let ins = edit_distance(a, b, i, (j - 1) as nat) + 1;
        let sub = edit_distance(a, b, (i - 1) as nat, (j - 1) as nat) + cost;
        if del <= ins && del <= sub {
            del
        } else if ins <= sub {
            ins
        } else {
            sub
        }
    }
}

/// The Levenshtein distance between `a` and `b`.
pub open spec fn levenshtein_distance(a: Seq<char>, b: Seq<char>) -> nat {
    edit_distance(a, b, a.len(), b.len())
}

proof fn lemma_edit_distance_bound(a: Seq<char>, b: Seq<char>, i: nat, j: nat)
    ensures
        edit_distance(a, b, i, j) <= i + j,
    decreases i + j,
{
    if i > 0 && j > 0 {
        lemma_edit_distance_bound(a, b, (i - 1) as nat, j);
    }
}

fn min_usize(x: usize, y: usize) -> (r: usize)
    ensures
        r == if x <= y { x } else { y },
{
    if x <= y { x } else { y }
}

/// Levenshtein distance of two character sequences, with one row of the
/// distance table kept at a time.
pub fn generic_levenshtein(a: &[char], b: &[char]) -> (r: usize)
    requires
        a@.len() + b@.len() < usize::MAX,
    ensures
        r == levenshtein_distance(a@, b@),
{
    let b_len = b.len();
    let mut cache: Vec<usize> = Vec::new();
    let mut k: usize = 0;
    while k < b_len
        invariant
            b_len == b@.len(),
            k <= b_len,
            cache@.len() == k,
            forall|m: int| 0 <= m < k ==> cache@[m] == m + 1,
        decreases b_len - k,
    {
        cache.push(k + 1);
        k += 1;
    }
    let mut result: usize = b_len;
    let mut i: usize = 0;
    while i < a.len()
        invariant
            a@.len() + b@.len() < usize::MAX,
            b_len == b@.len(),
            i <= a@.len(),
            cache@.len() == b_len,
            forall|m: int| 0 <= m < b_len ==> cache@[m] == edit_distance(a@, b@, i as nat, (m + 1) as nat),
            result == edit_distance(a@, b@, i as nat, b_len as nat),
        decreases a@.len() - i,
    {
        result = i + 1;
        let mut distance_b: usize = i;
        let mut j: usize = 0;
        while j < b_len
            invariant
                a@.len() + b@.len() < usize::MAX,
                b_len == b@.len(),
                i < a@.len(),
                j <= b_len,
                cache@.len() == b_len,
                forall|m: int| 0 <= m < j ==> cache@[m] == edit_distance(a@, b@, (i + 1) as nat, (m + 1) as nat),
                forall|m: int| j <= m < b_len ==> cache@[m] == edit_distance(a@, b@, i as nat, (m + 1) as nat),
                result == edit_distance(a@, b@, (i + 1) as nat, j as nat),
                distance_b == edit_distance(a@, b@, i as nat, j as nat),
            decreases b_len - j,
        {
            proof {
                lemma_edit_distance_bound(a@, b@, (i + 1) as nat, j as nat);
                lemma_edit_distance_bound(a@, b@, i as nat, j as nat);
                lemma_edit_distance_bound(a@, b@, i as nat, (j + 1) as nat);
            }
            let cost: usize = if a[i] == b[j] { 0 } else { 1 };
            let distance_a = distance_b + cost;
            distance_b = cache[j];
            result = min_usize(result + 1, min_usize(distance_a, distance_b + 1));
            cache.set(j, result);
            j += 1;
        }
        i += 1;
    }
    result
}

/// Levenshtein distance of two strings, counted in characters.
pub fn levenshtein(a: &str, b: &str) -> (r: usize)
    requires
        a@.len() + b@.len() < usize::MAX,
    ensures
        r == levenshtein_distance(a@, b@),
{
    let ca = chars_of(a);
    let cb = chars_of(b);
    generic_levenshtein(ca.as_slice(), cb.as_slice())
}

} // verus!
