//! The edit distance of two texts.

use vstd::prelude::*;
use crate::text::to_chars;

verus! {

/// The least of three numbers.
pub open spec fn min3(a: nat, b: nat, c: nat) -> nat {
    if a <= b && a <= c {
        a
    } else if b <= c {
        b
    } else {
        c
    }
}

/// What it costs to put `y` where `x` stands: nothing if they are the same.
pub open spec fn change_cost(x: char, y: char) -> nat {
    if x == y {
        0
    } else {
        1
    }
}

/// The Levenshtein distance of `a` and `b`: the least number of characters
/// to insert, remove or replace to make `b` of `a`.
pub open spec fn edit_distance(a: Seq<char>, b: Seq<char>) -> nat
    decreases a.len() + b.len(),
{
    if a.len() == 0 {
        b.len()
    } else if b.len() == 0 {
        a.len()
    } else {
        min3(
            edit_distance(a.drop_last(), b) + 1,
            edit_distance(a, b.drop_last()) + 1,
            edit_distance(a.drop_last(), b.drop_last()) + change_cost(a.last(), b.last()),
        )
    }
}

/// The distance is no more than the longer text is long.
pub proof fn lemma_distance_bound(a: Seq<char>, b: Seq<char>)
    ensures
        edit_distance(a, b) <= (if a.len() >= b.len() { a.len() } else { b.len() }),
    decreases a.len() + b.len(),
{
    if a.len() > 0 && b.len() > 0 {
        lemma_distance_bound(a.drop_last(), b.drop_last());
    }
}

/// The distance between a beginning of `a` and a beginning of `b`.
pub open spec fn cell(a: Seq<char>, b: Seq<char>, i: int, j: int) -> nat {
    edit_distance(a.take(i), b.take(j))
}

/// One more than `x`, or the largest number there is.
fn bump(x: usize) -> (r: usize)
    ensures
        r == (if x < usize::MAX { x + 1 } else { usize::MAX as int }),
{
    if x < usize::MAX {
        x + 1
    } else {
        x
    }
}

/// How a cell of the table follows from its three neighbours.
proof fn lemma_cell(a: Seq<char>, b: Seq<char>, i: int, j: int)
    requires
        0 <= i < a.len(),
        0 <= j < b.len(),
    ensures
        cell(a, b, i + 1, j + 1) == min3(
            cell(a, b, i, j + 1) + 1,
            cell(a, b, i + 1, j) + 1,
            cell(a, b, i, j) + change_cost(a[i], b[j]),
        ),
        cell(a, b, i + 1, j + 1) <= usize::MAX || a.len() > usize::MAX || b.len() > usize::MAX,
{
    let x = a.take(i + 1);
    let y = b.take(j + 1);
    assert(x.drop_last() == a.take(i));
    assert(y.drop_last() == b.take(j));
    assert(x.last() == a[i]);
    assert(y.last() == b[j]);
    lemma_distance_bound(x, y);
}

/// The Levenshtein distance of two texts, counted in characters.
pub fn levenshtein(a: &str, b: &str) -> (distance: usize)
    ensures
        distance == edit_distance(a@, b@),
{
    let av = to_chars(a);
    let bv = to_chars(b);
    let n = av.len();
    let m = bv.len();
    let mut costs: Vec<usize> = Vec::new();
    let mut j: usize = 0;
    while j < m
        invariant
            0 <= j <= m,
            m == bv.len(),
            costs.len() == j,
            forall|k: int| 0 <= k < j ==> costs@[k] == cell(av@, bv@, 0, k + 1),
        decreases m - j,
    {
        assert(av@.take(0).len() == 0);
        costs.push(j + 1);
        j += 1;
    }
    let mut i: usize = 0;
    while i < n
        invariant
            0 <= i <= n,
            n == av.len(),
            m == bv.len(),
            av@ == a@,
            bv@ == b@,
            costs.len() == m,
            forall|k: int| 0 <= k < m ==> costs@[k] == cell(av@, bv@, i as int, k + 1),
        decreases n - i,
    {
        let mut diag: usize = i;
        let mut left: usize = i + 1;
        proof {
            assert(bv@.take(0).len() == 0);
            assert(cell(av@, bv@, i as int, 0) == i);
            assert(cell(av@, bv@, i + 1, 0) == i + 1);
        }
        let mut j: usize = 0;
        while j < m
            invariant
                0 <= j <= m,
                0 <= i < n,
                n == av.len(),
                m == bv.len(),
                costs.len() == m,
                diag == cell(av@, bv@, i as int, j as int),
                left == cell(av@, bv@, i + 1, j as int),
                forall|k: int| 0 <= k < j ==> costs@[k] == cell(av@, bv@, i + 1, k + 1),
                forall|k: int| j <= k < m ==> costs@[k] == cell(av@, bv@, i as int, k + 1),
            decreases m - j,
        {
            let up = costs[j];
            let change = if av[i] == bv[j] {
                diag
            } else {
                bump(diag)
            };
            let by_insert = bump(left);
            let by_remove = bump(up);
            let best = if by_remove <= by_insert && by_remove <= change {
                by_remove
            } else if by_insert <= change {
                by_insert
            } else {
                change
            };
            proof {
                lemma_cell(av@, bv@, i as int, j as int);
            }
            costs.set(j, best);
            diag = up;
            left = best;
            j += 1;
        }
        i += 1;
    }
    proof {
        assert(av@.take(n as int) == av@);
        assert(bv@.take(m as int) == bv@);
    }
    if m == 0 {
        n
    } else {
        costs[m - 1]
    }
}

} // verus!
