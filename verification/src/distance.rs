//! Levenshtein distance between texts.
use vstd::prelude::*;

verus! {

broadcast use vstd::seq_lib::group_seq_properties;

/// The smallest of three numbers.
pub open spec fn min3(x: int, y: int, z: int) -> int {
    if x <= y && x <= z {
        x
    } else if y <= z {
        y
    } else {
        z
    }
}

/// Levenshtein distance: the fewest insertions, deletions and
/// substitutions of one character that turn `a` into `b`.
pub open spec fn lev(a: Seq<char>, b: Seq<char>) -> int
    decreases a.len() + b.len(),
{
    if a.len() == 0 {
        b.len() as int
    } else if b.len() == 0 {
        a.len() as int
    } else {
        min3(
            lev(a.drop_last(), b) + 1,
            lev(a, b.drop_last()) + 1,
            lev(a.drop_last(), b.drop_last()) + if a.last() == b.last() {
                0int
            } else {
                1int
            },
        )
    }
}

/// The distance is between 0 and the sum of the lengths.
pub proof fn lemma_lev_bounds(a: Seq<char>, b: Seq<char>)
    ensures
        0 <= lev(a, b) <= a.len() + b.len(),
    decreases a.len() + b.len(),
{
    if a.len() > 0 && b.len() > 0 {
        lemma_lev_bounds(a.drop_last(), b);
        lemma_lev_bounds(a, b.drop_last());
        lemma_lev_bounds(a.drop_last(), b.drop_last());
    }
}

/// A text is at distance 0 from itself.
pub proof fn law_lev_self_zero(a: Seq<char>)
    ensures
        lev(a, a) == 0,
    decreases a.len(),
{
    if a.len() > 0 {
        law_lev_self_zero(a.drop_last());
        lemma_lev_bounds(a.drop_last(), a);
        lemma_lev_bounds(a, a.drop_last());
    }
}

/// The distance does not depend on the order of its arguments.
pub proof fn law_lev_symmetric(a: Seq<char>, b: Seq<char>)
    ensures
        lev(a, b) == lev(b, a),
    decreases a.len() + b.len(),
{
    if a.len() > 0 && b.len() > 0 {
        law_lev_symmetric(a.drop_last(), b);
        law_lev_symmetric(a, b.drop_last());
        law_lev_symmetric(a.drop_last(), b.drop_last());
    }
}

/// The distance to the empty text is the length.
pub proof fn law_lev_empty(a: Seq<char>)
    ensures
        lev(a, Seq::<char>::empty()) == a.len(),
        lev(Seq::<char>::empty(), a) == a.len(),
{
}

/// The distance is at most the longer length.
pub proof fn lemma_lev_max(a: Seq<char>, b: Seq<char>)
    ensures
        lev(a, b) <= if a.len() >= b.len() {
            a.len() as int
        } else {
            b.len() as int
        },
    decreases a.len() + b.len(),
{
    if a.len() > 0 && b.len() > 0 {
        lemma_lev_max(a.drop_last(), b.drop_last());
        lemma_lev_bounds(a.drop_last(), b);
        lemma_lev_bounds(a, b.drop_last());
    }
}

/// `x + 1`, or `x` when that does not fit.
fn succ_sat(x: usize) -> (r: usize)
    ensures
        r == if x < usize::MAX {
            x + 1
        } else {
            x as int
        },
{
    if x < usize::MAX {
        x + 1
    } else {
        x
    }
}

/// The Levenshtein distance between `a` and `b`.
pub fn levenshtein(a: &[char], b: &[char]) -> (r: usize)
    ensures
        r == lev(a@, b@),
{
    let m = a.len();
    let n = b.len();
    // prev[k] = lev(a[..i], b[..k])
    let mut prev: Vec<usize> = Vec::new();
    let mut j: usize = 0;
    assert(a@.take(0).len() == 0);
    while j < n
        invariant
            j <= n,
            n == b@.len(),
            prev@.len() == j,
            forall|k: int| 0 <= k < j ==> prev@[k] == lev(a@.take(0), b@.take(k)),
        decreases n - j,
    {
        prev.push(j);
        j = j + 1;
    }
    prev.push(n);
    let mut i: usize = 0;
    while i < m
        invariant
            i <= m,
            m == a@.len(),
            n == b@.len(),
            prev@.len() == n + 1,
            forall|k: int| 0 <= k <= n ==> prev@[k] == lev(a@.take(i as int), b@.take(k)),
        decreases m - i,
    {
        let mut cur: Vec<usize> = Vec::new();
        assert(b@.take(0).len() == 0);
        assert(a@.take(i + 1).len() == i + 1);
        cur.push(i + 1);
        let mut j: usize = 0;
        while j < n
            invariant
                i < m,
                j <= n,
                m == a@.len(),
                n == b@.len(),
                prev@.len() == n + 1,
                forall|k: int| 0 <= k <= n ==> prev@[k] == lev(a@.take(i as int), b@.take(k)),
                cur@.len() == j + 1,
                forall|k: int| 0 <= k <= j ==> cur@[k] == lev(a@.take(i + 1), b@.take(k)),
            decreases n - j,
        {
            let ghost ai = a@.take(i + 1);
            let ghost bj = b@.take(j + 1);
            proof {
                assert(ai.drop_last() == a@.take(i as int));
                assert(bj.drop_last() == b@.take(j as int));
                assert(ai.last() == a@[i as int]);
                assert(bj.last() == b@[j as int]);
                lemma_lev_bounds(a@.take(i as int), bj);
                lemma_lev_bounds(ai, b@.take(j as int));
                lemma_lev_bounds(a@.take(i as int), b@.take(j as int));
                lemma_lev_max(a@.take(i as int), b@.take(j as int));
                lemma_lev_max(ai, bj);
            }
            let cost: usize = if a[i] == b[j] {
                0
            } else {
                1
            };
            let del = succ_sat(prev[j + 1]);
            let ins = succ_sat(cur[j]);
            let sub = prev[j] + cost;
            let best = if del <= ins && del <= sub {
                del
            } else if ins <= sub {
                ins
            } else {
                sub
            };
            cur.push(best);
            j = j + 1;
        }
        prev = cur;
        i = i + 1;
    }
    assert(a@.take(m as int) == a@);
    assert(b@.take(n as int) == b@);
    prev[n]
}

/// The distance is at least the difference of the lengths.
pub proof fn law_lev_length_gap(a: Seq<char>, b: Seq<char>)
    ensures
        a.len() - b.len() <= lev(a, b),
        b.len() - a.len() <= lev(a, b),
    decreases a.len() + b.len(),
{
    if a.len() > 0 && b.len() > 0 {
        law_lev_length_gap(a.drop_last(), b);
        law_lev_length_gap(a, b.drop_last());
        law_lev_length_gap(a.drop_last(), b.drop_last());
    }
}

/// Only equal texts are at distance 0.
pub proof fn law_lev_zero_only_equal(a: Seq<char>, b: Seq<char>)
    requires
        lev(a, b) == 0,
    ensures
        a == b,
    decreases a.len() + b.len(),
{
    if a.len() == 0 || b.len() == 0 {
        assert(a =~= b);
    } else {
        lemma_lev_bounds(a.drop_last(), b);
        lemma_lev_bounds(a, b.drop_last());
        lemma_lev_bounds(a.drop_last(), b.drop_last());
        assert(a.last() == b.last());
        law_lev_zero_only_equal(a.drop_last(), b.drop_last());
        assert(a =~= a.drop_last().push(a.last()));
        assert(b =~= b.drop_last().push(b.last()));
    }
}

/// Going through a third text is never shorter: the triangle inequality.
pub proof fn law_lev_triangle(a: Seq<char>, b: Seq<char>, c: Seq<char>)
    ensures
        lev(a, c) <= lev(a, b) + lev(b, c),
    decreases a.len() + b.len() + c.len(),
{
    if a.len() == 0 || c.len() == 0 {
        law_lev_length_gap(a, b);
        law_lev_length_gap(b, c);
    } else if b.len() == 0 {
        lemma_lev_bounds(a, c);
    } else {
        let a1 = a.drop_last();
        let b1 = b.drop_last();
        let c1 = c.drop_last();
        law_lev_triangle(a1, b, c);
        law_lev_triangle(a, b, c1);
        law_lev_triangle(a, b1, c);
        law_lev_triangle(a, b1, c1);
        law_lev_triangle(a1, b1, c);
        law_lev_triangle(a1, b1, c1);
    }
}

} // verus!
