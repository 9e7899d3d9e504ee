//! Counting successes, and why the count does not depend on the order in
//! which they came in.

use vstd::prelude::*;

verus! {

/// How many of `outcomes` are `true`.
pub open spec fn count_true(outcomes: Seq<bool>) -> nat
    decreases outcomes.len(),
{
    if outcomes.len() == 0 {
        0
    } else {
        count_true(outcomes.drop_last()) + if outcomes.last() {
            1nat
        } else {
            0nat
        }
    }
}

/// What one outcome adds to a count.
pub open spec fn weight(outcome: bool) -> nat {
    if outcome {
        1
    } else {
        0
    }
}

/// `order` names each of the positions `0 .. n` exactly once.
pub open spec fn is_visiting_order(order: Seq<int>, n: nat) -> bool {
    &&& order.len() == n
    &&& forall|k: int| 0 <= k < n ==> 0 <= #[trigger] order[k] < n
    &&& forall|k: int, l: int| 0 <= k < l < n ==> order[k] != order[l]
    &&& forall|i: int| 0 <= i < n ==> #[trigger] order.contains(i)
}

/// The `items` as they are met when they are visited in `order`.
pub open spec fn in_order<T>(items: Seq<T>, order: Seq<int>) -> Seq<T> {
    Seq::new(order.len(), |k: int| items[order[k]])
}

/// A single outcome counts for its weight.
pub proof fn lemma_count_true_single(outcome: bool)
    ensures
        count_true(seq![outcome]) == weight(outcome),
{
    reveal_with_fuel(count_true, 2);
}

/// Counting over two runs of outcomes, one after the other, adds up.
pub proof fn lemma_count_true_concat(a: Seq<bool>, b: Seq<bool>)
    ensures
        count_true(a + b) == count_true(a) + count_true(b),
    decreases b.len(),
{
    if b.len() == 0 {
        assert(a + b =~= a);
    } else {
        assert((a + b).drop_last() =~= a + b.drop_last());
        lemma_count_true_concat(a, b.drop_last());
    }
}

/// No more outcomes are `true` than there are outcomes; all are counted when
/// all are `true`, and none when none is.
pub proof fn lemma_count_true_bounds(outcomes: Seq<bool>)
    ensures
        count_true(outcomes) <= outcomes.len(),
        (forall|k: int| 0 <= k < outcomes.len() ==> outcomes[k]) ==> count_true(outcomes)
            == outcomes.len(),
        (forall|k: int| 0 <= k < outcomes.len() ==> !outcomes[k]) ==> count_true(outcomes) == 0,
    decreases outcomes.len(),
{
    if outcomes.len() > 0 {
        lemma_count_true_bounds(outcomes.drop_last());
    }
}

/// Taking one outcome out lowers the count by that outcome's weight.
pub proof fn lemma_count_true_remove(outcomes: Seq<bool>, at: int)
    requires
        0 <= at < outcomes.len(),
    ensures
        count_true(outcomes) == count_true(outcomes.remove(at)) + weight(outcomes[at]),
{
    let before = outcomes.take(at);
    let after = outcomes.skip(at + 1);
    assert(outcomes =~= before + seq![outcomes[at]] + after);
    assert(outcomes.remove(at) =~= before + after);
    lemma_count_true_concat(before + seq![outcomes[at]], after);
    lemma_count_true_concat(before, seq![outcomes[at]]);
    lemma_count_true_single(outcomes[at]);
    lemma_count_true_concat(before, after);
}

/// The count is the same in whatever order the outcomes are visited.
pub proof fn lemma_count_true_ignores_order(outcomes: Seq<bool>, order: Seq<int>)
    requires
        is_visiting_order(order, outcomes.len()),
    ensures
        count_true(in_order(outcomes, order)) == count_true(outcomes),
    decreases outcomes.len(),
{
    if outcomes.len() == 0 {
        assert(in_order(outcomes, order) =~= outcomes);
    } else {
        let n = outcomes.len() as int;
        assert(order.contains(n - 1));
        let at = choose|k: int| 0 <= k < n && order[k] == n - 1;
        let rest = order.remove(at);
        let fewer = outcomes.drop_last();
        assert(is_visiting_order(rest, fewer.len())) by {
            assert forall|i: int| 0 <= i < n - 1 implies #[trigger] rest.contains(i) by {
                assert(order.contains(i));
                let k = choose|k: int| 0 <= k < n && order[k] == i;
                if k < at {
                    assert(rest[k] == i);
                } else {
                    assert(rest[k - 1] == i);
                }
            }
            assert forall|k: int| 0 <= k < n - 1 implies 0 <= #[trigger] rest[k] < n - 1 by {
                if k < at {
                    assert(rest[k] == order[k]);
                } else {
                    assert(rest[k] == order[k + 1]);
                }
            }
        }
        assert(in_order(outcomes, order).remove(at) =~= in_order(fewer, rest));
        lemma_count_true_remove(in_order(outcomes, order), at);
        lemma_count_true_ignores_order(fewer, rest);
    }
}

/// Counts the outcomes that are `true`.
pub fn count_closed(outcomes: &[bool]) -> (closed: usize)
    ensures
        closed == count_true(outcomes@),
{
    let mut closed: usize = 0;
    let mut k: usize = 0;
    while k < outcomes.len()
        invariant
            k <= outcomes.len(),
            closed == count_true(outcomes@.take(k as int)),
            closed <= k,
        decreases outcomes.len() - k,
    {
        proof {
            assert(outcomes@.take(k + 1).drop_last() =~= outcomes@.take(k as int));
        }
        if outcomes[k] {
            closed += 1;
        }
        k += 1;
    }
    assert(outcomes@.take(outcomes.len() as int) =~= outcomes@);
    closed
}

} // verus!
