//! The taste tilt: the order in which an already-loaded page of titles is shown.
//!
//! How a title scores is arithmetic over a household's taste, and is the caller's. This is what becomes of
//! the scores. The tilt only ever reorders: it never fetches, filters or drops. That is what lets an
//! infinitely scrolling row work at all: a page that came back with 24 titles still has 24 titles, in a
//! different order, so paging state stays valid.

use crate::double::Double;
use vstd::prelude::*;

verus! {

/// Whether a title is shown before another: it scores higher, or as high and came in before.
pub open spec fn leads(scores: Seq<Double>, i: int, j: int) -> bool {
    ||| scores[i].rank() > scores[j].rank()
    ||| scores[i].rank() == scores[j].rank() && i < j
}

/// Whether every title of a page is shown, and once.
pub open spec fn reorders(order: Seq<usize>, n: nat) -> bool {
    &&& order.len() == n
    &&& forall|a: int| 0 <= a < n ==> (#[trigger] order[a]) < n
    &&& forall|a: int, b: int|
        #![trigger order[a], order[b]]
        0 <= a < b < n ==> order[a] != order[b]
    &&& forall|i: usize| i < n ==> #[trigger] order.contains(i)
}

/// Whether titles are shown by their scores.
pub open spec fn ranks(order: Seq<usize>, scores: Seq<Double>) -> bool {
    forall|a: int, b: int|
        #![trigger order[a], order[b]]
        0 <= a < b < order.len() ==> leads(scores, order[a] as int, order[b] as int)
}

/// Whether every score is a number.
pub open spec fn comparable(scores: Seq<Double>) -> bool {
    forall|i: int| 0 <= i < scores.len() ==> (#[trigger] scores[i]).ordered()
}

/// The order in which titles are shown, as indices into the page: by their scores, the highest first. Ties
/// break on the incoming index, so the same scores always give the same order.
///
/// A score that is no number has no place among the others; with one on the page, every title is still
/// shown, and once.
pub fn order(scores: &[Double]) -> (r: Vec<usize>)
    ensures
        reorders(r@, scores@.len()),
        comparable(scores@) ==> ranks(r@, scores@),
{
    let mut r: Vec<usize> = Vec::new();
    for i in 0..scores.len()
        invariant
            reorders(r@, i as nat),
            comparable(scores@) ==> ranks(r@, scores@),
    {
        let ghost before = r@;
        let mut p: usize = r.len();
        while p > 0 && scores[r[p - 1]].less_than(scores[i])
            invariant
                i < scores@.len(),
                p <= r@.len(),
                r@ == before,
                reorders(before, i as nat),
                comparable(scores@) ==> forall|a: int|
                    p <= a < before.len() ==> scores@[(#[trigger] before[a]) as int].rank()
                        < scores@[i as int].rank(),
            decreases p,
        {
            p -= 1;
        }
        r.insert(p, i);
        proof {
            inserting_reorders(before, i, p as int);
            if comparable(scores@) {
                let after = r@;
                assert forall|a: int, b: int|
                    #![trigger after[a], after[b]]
                    0 <= a < b < after.len() implies leads(
                    scores@,
                    after[a] as int,
                    after[b] as int,
                ) by {
                    if b < p {
                        assert(leads(scores@, before[a] as int, before[b] as int));
                    } else if b == p {
                        assert(before[a] < i);
                        assert(before[p - 1] < i);
                        assert(a == p - 1 || leads(scores@, before[a] as int, before[p - 1] as int));
                    } else if a < p {
                        assert(leads(scores@, before[a] as int, before[b - 1] as int));
                    } else if a == p {
                        assert(before[b - 1] < i);
                    } else {
                        assert(leads(scores@, before[a - 1] as int, before[b - 1] as int));
                    }
                }
            }
        }
    }
    r
}

/// One more title, put anywhere, and every title is still shown once.
proof fn inserting_reorders(order: Seq<usize>, i: usize, p: int)
    requires
        reorders(order, i as nat),
        0 <= p <= order.len(),
    ensures
        reorders(order.insert(p, i), (i + 1) as nat),
{
    let after = order.insert(p, i);
    assert forall|a: int| 0 <= a < i + 1 implies (#[trigger] after[a]) < i + 1 by {
        if a < p {
            assert(order[a] < i);
        } else if a > p {
            assert(order[a - 1] < i);
        }
    }
    assert forall|a: int, b: int|
        #![trigger after[a], after[b]]
        0 <= a < b < i + 1 implies after[a] != after[b] by {
        if a < p {
            assert(order[a] < i);
        } else if a > p {
            assert(order[a - 1] < i);
        }
        if b < p {
            assert(order[b] < i);
        } else if b > p {
            assert(order[b - 1] < i);
        }
    }
    assert forall|k: usize| k < i + 1 implies #[trigger] after.contains(k) by {
        if k == i {
            assert(after[p] == k);
        } else {
            assert(order.contains(k));
            let a = choose|a: int| 0 <= a < order.len() && order[a] == k;
            if a < p {
                assert(after[a] == k);
            } else {
                assert(after[a + 1] == k);
            }
        }
    }
}

// ---------------------------------------------------------------------------------------------------
// Laws.

/// The same scores always give the same order: there is only one.
pub proof fn the_order_is_determined(a: Seq<usize>, b: Seq<usize>, scores: Seq<Double>)
    requires
        reorders(a, scores.len()),
        reorders(b, scores.len()),
        ranks(a, scores),
        ranks(b, scores),
    ensures
        a == b,
{
    orders_agree(a, b, scores, a.len() as int);
    assert(a =~= b);
}

/// Two orders agree on the first places.
proof fn orders_agree(a: Seq<usize>, b: Seq<usize>, scores: Seq<Double>, n: int)
    requires
        reorders(a, scores.len()),
        reorders(b, scores.len()),
        ranks(a, scores),
        ranks(b, scores),
        0 <= n <= a.len(),
    ensures
        forall|k: int| 0 <= k < n ==> a[k] == b[k],
    decreases n,
{
    if n > 0 {
        orders_agree(a, b, scores, n - 1);
        let k = n - 1;
        assert(a[k] < scores.len() && b[k] < scores.len());
        assert(b.contains(a[k]));
        assert(a.contains(b[k]));
        let m = choose|m: int| 0 <= m < b.len() && b[m] == a[k];
        let l = choose|l: int| 0 <= l < a.len() && a[l] == b[k];
        if a[k] != b[k] {
            assert(m > k) by {
                if m < k {
                    assert(a[m] == b[m]);
                }
            }
            assert(l > k) by {
                if l < k {
                    assert(a[l] == b[l]);
                }
            }
            assert(leads(scores, b[k] as int, b[m] as int));
            assert(leads(scores, a[k] as int, a[l] as int));
        }
    }
}

/// A page whose titles all score the same keeps its order.
pub proof fn ties_keep_the_incoming_order(order: Seq<usize>, scores: Seq<Double>)
    requires
        reorders(order, scores.len()),
        ranks(order, scores),
        forall|i: int, j: int|
            #![trigger scores[i], scores[j]]
            0 <= i < scores.len() && 0 <= j < scores.len() ==> scores[i].rank() == scores[j].rank(),
        scores.len() <= usize::MAX,
    ensures
        forall|k: int| 0 <= k < order.len() ==> order[k] == k,
{
    let same = Seq::new(scores.len(), |k: int| k as usize);
    assert(reorders(same, scores.len())) by {
        assert forall|i: usize| i < scores.len() implies #[trigger] same.contains(i) by {
            assert(same[i as int] == i);
        }
    }
    the_order_is_determined(order, same, scores);
}

/// What is shown first: every title of the page is shown at one place and at no other; of two, the one that
/// scores higher comes first, and of two that score alike the one that came in first.
pub proof fn what_is_shown_first(order: Seq<usize>, scores: Seq<Double>, a: int, b: int, i: usize)
    requires
        reorders(order, scores.len()),
        ranks(order, scores),
        forall|k: int| 0 <= k < scores.len() ==> (#[trigger] scores[k]).finite(),
        0 <= a < b < order.len(),
        i < scores.len(),
    ensures
        order.len() == scores.len(),
        order[a] < scores.len(),
        order[b] < scores.len(),
        order[a] != order[b],
        scores[order[a] as int].value() >= scores[order[b] as int].value(),
        scores[order[a] as int].value() == scores[order[b] as int].value() ==> order[a] < order[b],
        exists|k: int| 0 <= k < order.len() && order[k] == i,
{
    let x = scores[order[a] as int];
    let y = scores[order[b] as int];
    assert(order[a] < scores.len() && order[b] < scores.len());
    assert(x.finite() && y.finite());
    crate::double::ranks_order_values(x, y);
    crate::double::ranks_order_values(y, x);
    assert(order.contains(i));
}

/// A page can be ordered when no score on it is something else than a number; infinities are numbers.
pub proof fn numbers_are_comparable(scores: Seq<Double>)
    ensures
        comparable(scores) <==> forall|k: int|
            0 <= k < scores.len() ==> (#[trigger] scores[k]).bits % 0x8000_0000_0000_0000
                <= 0x7ff0_0000_0000_0000,
{
    if comparable(scores) {
        assert forall|k: int| 0 <= k < scores.len() implies (#[trigger] scores[k]).bits
            % 0x8000_0000_0000_0000 <= 0x7ff0_0000_0000_0000 by {
            assert(scores[k].ordered());
        }
    }
}

} // verus!
