//! Index pairs `(i, j)` with `i < j`, enumerated lazily by
//! `itertools::Itertools::combinations`.

use itertools::Itertools;
use vstd::prelude::*;

verus! {

/// `itertools::Combinations`, the lazy enumeration that
/// `Itertools::combinations` returns. Nothing of its inside is looked at.
#[verifier::external_type_specification]
#[verifier::external_body]
#[verifier::reject_recursive_types(I)]
pub struct ExCombinations<I: Iterator>(itertools::Combinations<I>);

/// The pairs that an enumeration has yet to yield, in the order in which it
/// will yield them.
pub uninterp spec fn pending_pairs(it: itertools::Combinations<std::ops::Range<usize>>) -> Seq<
    (usize, usize),
>;

/// The pairs `(a, b)` with `a < b < n` that come at or after `(i, j)` in
/// lexicographic order, in that order.
pub open spec fn pairs_from(i: int, j: int, n: int) -> Seq<(usize, usize)>
    decreases n - i, n - j,
{
    if i < 0 || j <= i || i + 1 >= n {
        Seq::empty()
    } else if j >= n {
        pairs_from(i + 1, i + 2, n)
    } else {
        seq![(i as usize, j as usize)] + pairs_from(i, j + 1, n)
    }
}

/// Starts `(0..n).combinations(2)`. Trusted: the enumeration will yield every
/// pair of indices `(i, j)` with `i < j < n`, in lexicographic order.
#[verifier::external_body]
pub(crate) fn index_pairs(n: usize) -> (it: itertools::Combinations<std::ops::Range<usize>>)
    ensures
        pending_pairs(it) == pairs_from(0, 1, n as int),
{
    (0..n).combinations(2)
}

/// Calls `next` on the enumeration. Trusted: it yields the first pending pair
/// and leaves the others pending; with none pending it yields `None` and
/// stays exhausted.
#[verifier::external_body]
pub(crate) fn next_pair(it: &mut itertools::Combinations<std::ops::Range<usize>>) -> (r: Option<
    (usize, usize),
>)
    ensures
        pending_pairs(*old(it)).len() == 0 ==> r is None && pending_pairs(*final(it)).len() == 0,
        pending_pairs(*old(it)).len() > 0 ==> r == Some(pending_pairs(*old(it))[0])
            && pending_pairs(*final(it)) == pending_pairs(*old(it)).drop_first(),
{
    it.next().map(|pair| (pair[0], pair[1]))
}

/// The pair `(i, j)` is pending in `pairs_from(i, j, n)` first, and
/// `pairs_from` of the next pair in order is what follows it.
pub proof fn lemma_pairs_step(i: int, j: int, n: int)
    requires
        0 <= i < j < n,
        n <= usize::MAX,
    ensures
        pairs_from(i, j, n).len() > 0,
        pairs_from(i, j, n)[0] == (i as usize, j as usize),
        pairs_from(i, j, n).drop_first() == if j + 1 < n {
            pairs_from(i, j + 1, n)
        } else {
            pairs_from(i + 1, i + 2, n)
        },
{
    let rest = pairs_from(i, j + 1, n);
    assert(pairs_from(i, j, n) == seq![(i as usize, j as usize)] + rest);
    assert(pairs_from(i, j, n).drop_first() =~= rest);
    if j + 1 >= n {
        assert(rest == pairs_from(i + 1, i + 2, n));
    }
}

} // verus!
