//! Positions in a forest of elements, and what the walker does at them.
//!
//! A position is a path: the index of an element among its siblings, then the
//! index of one of that element's children, and so on. Two elements of a
//! snapshot may hold the same attributes; their positions tell them apart, and
//! say which of two elements lies above the other.

use vstd::prelude::*;
use crate::element::AccessibilityElement;
use crate::walker::{alerts_among, alerts_in, is_alert, is_searched};

verus! {

/// `path` leads to an element of `forest`.
pub open spec fn is_position(forest: Seq<AccessibilityElement>, path: Seq<int>) -> bool
    decreases path.len(),
{
    &&& path.len() > 0
    &&& 0 <= path[0] < forest.len()
    &&& path.len() > 1 ==> {
        &&& forest[path[0]].children is Some
        &&& is_position(forest[path[0]].children->0@, path.drop_first())
    }
}

/// The element of `forest` that `path` leads to.
pub open spec fn element_at(forest: Seq<AccessibilityElement>, path: Seq<int>) -> AccessibilityElement
    recommends
        is_position(forest, path),
    decreases path.len(),
{
    if path.len() <= 1 {
        forest[path[0]]
    } else {
        element_at(forest[path[0]].children->0@, path.drop_first())
    }
}

/// The walker comes to the element at `path`: it looks into every element
/// above it.
pub open spec fn reaches(forest: Seq<AccessibilityElement>, path: Seq<int>) -> bool
    decreases path.len(),
{
    &&& path.len() > 0
    &&& 0 <= path[0] < forest.len()
    &&& path.len() > 1 ==> {
        &&& is_searched(forest[path[0]])
        &&& reaches(forest[path[0]].children->0@, path.drop_first())
    }
}

/// The walker collects the element at `path`: it comes to it, and it is an
/// alert.
pub open spec fn collects(forest: Seq<AccessibilityElement>, path: Seq<int>) -> bool {
    reaches(forest, path) && is_alert(element_at(forest, path))
}

/// The position `upper` lies above the position `lower`: the element at
/// `upper` is an ancestor of the element at `lower`.
pub open spec fn is_above(upper: Seq<int>, lower: Seq<int>) -> bool {
    &&& 0 < upper.len() < lower.len()
    &&& lower.take(upper.len() as int) == upper
}

/// The position `earlier` comes before `later` in document order and neither
/// lies above the other: the paths part at some index, and `earlier` goes on
/// with the smaller sibling there.
pub open spec fn is_before(earlier: Seq<int>, later: Seq<int>) -> bool {
    exists|j: int|
        0 <= j < earlier.len() && j < later.len() && #[trigger] earlier.take(j) == later.take(j)
            && earlier[j] < later[j]
}

/// Each of `paths`, with `index` put in front.
pub open spec fn under(index: int, paths: Seq<Seq<int>>) -> Seq<Seq<int>> {
    Seq::new(paths.len(), |k: int| seq![index] + paths[k])
}

/// The positions of the alerts found at or below `e`, which stands at `index`
/// among its siblings.
pub open spec fn alert_paths_in(e: AccessibilityElement, index: int) -> Seq<Seq<int>>
    decreases e, 0nat,
{
    if is_alert(e) {
        seq![seq![index]]
    } else if is_searched(e) {
        under(index, alert_paths(e.children->0@))
    } else {
        Seq::empty()
    }
}

/// The positions of the alerts found in `forest`, in the order in which the
/// walker finds them.
pub open spec fn alert_paths(forest: Seq<AccessibilityElement>) -> Seq<Seq<int>>
    decreases forest, 1nat,
{
    if forest.len() == 0 {
        Seq::empty()
    } else {
        alert_paths(forest.drop_last()) + alert_paths_in(forest.last(), forest.len() - 1)
    }
}

/// Every path that the walker comes to leads to an element of the forest.
pub proof fn lemma_reached_is_position(forest: Seq<AccessibilityElement>, path: Seq<int>)
    requires
        reaches(forest, path),
    ensures
        is_position(forest, path),
    decreases path.len(),
{
    if path.len() > 1 {
        lemma_reached_is_position(forest[path[0]].children->0@, path.drop_first());
    }
}

/// What the walker does at a position of a forest depends on the siblings up
/// to that position only.
proof fn lemma_prefix_agrees(
    forest: Seq<AccessibilityElement>,
    shorter: Seq<AccessibilityElement>,
    path: Seq<int>,
)
    requires
        shorter.len() <= forest.len(),
        forall|i: int| 0 <= i < shorter.len() ==> shorter[i] == forest[i],
        path.len() > 0,
        0 <= path[0] < shorter.len(),
    ensures
        reaches(shorter, path) == reaches(forest, path),
        element_at(shorter, path) == element_at(forest, path),
{
}

/// The walker's result, position by position: the `k`-th alert found is the
/// element at the `k`-th of `alert_paths`, the walker comes to that position,
/// and the element there is an alert.
pub proof fn lemma_alerts_at_paths(forest: Seq<AccessibilityElement>)
    ensures
        alert_paths(forest).len() == alerts_among(forest).len(),
        forall|k: int|
            0 <= k < alert_paths(forest).len() ==> {
                &&& collects(forest, #[trigger] alert_paths(forest)[k])
                &&& element_at(forest, alert_paths(forest)[k]) == alerts_among(forest)[k]
            },
    decreases forest, 1nat,
{
    if forest.len() > 0 {
        let init = forest.drop_last();
        let last = forest.last();
        let index = forest.len() - 1;
        lemma_alerts_at_paths(init);
        lemma_alerts_at_paths_in(forest, index);
        assert forall|k: int| 0 <= k < alert_paths(forest).len() implies {
            &&& collects(forest, #[trigger] alert_paths(forest)[k])
            &&& element_at(forest, alert_paths(forest)[k]) == alerts_among(forest)[k]
        } by {
            if k < alert_paths(init).len() {
                let path = alert_paths(init)[k];
                assert(collects(init, path));
                lemma_prefix_agrees(forest, init, path);
            } else {
                let path = alert_paths_in(last, index)[k - alert_paths(init).len()];
                assert(collects(forest, path));
            }
        }
    }
}

/// The same, for the alerts at or below one element of a forest.
pub proof fn lemma_alerts_at_paths_in(forest: Seq<AccessibilityElement>, index: int)
    requires
        0 <= index < forest.len(),
    ensures
        alert_paths_in(forest[index], index).len() == alerts_in(forest[index]).len(),
        forall|k: int|
            0 <= k < alert_paths_in(forest[index], index).len() ==> {
                &&& collects(forest, #[trigger] alert_paths_in(forest[index], index)[k])
                &&& element_at(forest, alert_paths_in(forest[index], index)[k]) == alerts_in(
                    forest[index],
                )[k]
            },
    decreases forest[index], 0nat,
{
    let e = forest[index];
    if is_alert(e) {
        let path = seq![index];
        assert(alert_paths_in(e, index)[0] == path);
        assert(reaches(forest, path));
        assert(element_at(forest, path) == e);
    } else if is_searched(e) {
        let children = e.children->0@;
        lemma_alerts_at_paths(children);
        assert forall|k: int| 0 <= k < alert_paths_in(e, index).len() implies {
            &&& collects(forest, #[trigger] alert_paths_in(e, index)[k])
            &&& element_at(forest, alert_paths_in(e, index)[k]) == alerts_in(e)[k]
        } by {
            let inner = alert_paths(children)[k];
            let path = seq![index] + inner;
            assert(alert_paths_in(e, index)[k] == path);
            assert(collects(children, inner));
            assert(path.drop_first() =~= inner);
            assert(path[0] == index);
            assert(reaches(forest, path));
            assert(element_at(forest, path) == element_at(children, inner));
        }
    }
}

/// Every position that the walker collects is among `alert_paths`.
pub proof fn lemma_collected_is_listed(forest: Seq<AccessibilityElement>, path: Seq<int>)
    requires
        collects(forest, path),
    ensures
        alert_paths(forest).contains(path),
    decreases forest, 1nat,
{
    let init = forest.drop_last();
    let index = forest.len() - 1;
    if path[0] == index {
        lemma_collected_is_listed_in(forest, path);
        let inner = alert_paths_in(forest[index], index);
        let k = choose|k: int| 0 <= k < inner.len() && inner[k] == path;
        assert(alert_paths(forest)[alert_paths(init).len() + k] == path);
    } else {
        lemma_prefix_agrees(forest, init, path);
        lemma_collected_is_listed(init, path);
        let k = choose|k: int| 0 <= k < alert_paths(init).len() && alert_paths(init)[k] == path;
        assert(alert_paths(forest)[k] == path);
    }
}

/// The same, for the element that the position starts at.
pub proof fn lemma_collected_is_listed_in(forest: Seq<AccessibilityElement>, path: Seq<int>)
    requires
        collects(forest, path),
    ensures
        alert_paths_in(forest[path[0]], path[0]).contains(path),
    decreases forest[path[0]], 0nat,
{
    let index = path[0];
    let e = forest[index];
    if path.len() == 1 {
        assert(path =~= seq![index]);
        assert(alert_paths_in(e, index)[0] == path);
    } else {
        let children = e.children->0@;
        let rest = path.drop_first();
        assert(collects(children, rest));
        lemma_collected_is_listed(children, rest);
        let k = choose|k: int| 0 <= k < alert_paths(children).len() && alert_paths(children)[k] == rest;
        assert(seq![index] + rest =~= path);
        assert(alert_paths_in(e, index)[k] == path);
    }
}

/// The walker never comes to a position below an element that it does not
/// look into.
pub proof fn lemma_walker_stops(forest: Seq<AccessibilityElement>, upper: Seq<int>, lower: Seq<int>)
    requires
        is_above(upper, lower),
        !is_searched(element_at(forest, upper)),
    ensures
        !reaches(forest, lower),
    decreases upper.len(),
{
    assert(lower.take(upper.len() as int)[0] == lower[0]);
    if upper.len() > 1 && reaches(forest, lower) {
        let children = forest[upper[0]].children->0@;
        assert(lower.drop_first().take(upper.len() - 1) =~= lower.take(upper.len() as int).drop_first());
        lemma_walker_stops(children, upper.drop_first(), lower.drop_first());
    }
}

/// No alert that the walker collects lies below another that it collects.
pub proof fn lemma_no_alert_above_alert(
    forest: Seq<AccessibilityElement>,
    upper: Seq<int>,
    lower: Seq<int>,
)
    requires
        collects(forest, upper),
        is_above(upper, lower),
    ensures
        !collects(forest, lower),
{
    lemma_walker_stops(forest, upper, lower);
}

/// An element with a notification subrole that the walker comes to is
/// collected whatever it holds, and the walker comes to nothing below it.
pub proof fn lemma_alert_is_a_leaf(forest: Seq<AccessibilityElement>, path: Seq<int>)
    requires
        reaches(forest, path),
        is_alert(element_at(forest, path)),
    ensures
        alert_paths(forest).contains(path),
        alerts_in(element_at(forest, path)) == seq![element_at(forest, path)],
        forall|lower: Seq<int>| is_above(path, lower) ==> !reaches(forest, lower),
{
    lemma_collected_is_listed(forest, path);
    assert forall|lower: Seq<int>| is_above(path, lower) implies !reaches(forest, lower) by {
        lemma_walker_stops(forest, path, lower);
    }
}

/// An element without a role is not collected, and the walker comes to
/// nothing below it.
pub proof fn lemma_roleless_is_skipped(forest: Seq<AccessibilityElement>, path: Seq<int>)
    requires
        path.len() > 0,
        element_at(forest, path).role is None,
    ensures
        !collects(forest, path),
        alerts_in(element_at(forest, path)) == Seq::<AccessibilityElement>::empty(),
        forall|lower: Seq<int>| is_above(path, lower) ==> !reaches(forest, lower),
{
    assert forall|lower: Seq<int>| is_above(path, lower) implies !reaches(forest, lower) by {
        lemma_walker_stops(forest, path, lower);
    }
}

/// Every position among those of one element starts at that element.
proof fn lemma_paths_start_at(e: AccessibilityElement, index: int, k: int)
    requires
        0 <= k < alert_paths_in(e, index).len(),
    ensures
        alert_paths_in(e, index)[k].len() > 0,
        alert_paths_in(e, index)[k][0] == index,
{
}

/// The walker finds the alerts in document order: of two positions in
/// `alert_paths`, the one found first comes before the other.
pub proof fn lemma_paths_in_document_order(forest: Seq<AccessibilityElement>, k: int, l: int)
    requires
        0 <= k < l < alert_paths(forest).len(),
    ensures
        is_before(alert_paths(forest)[k], alert_paths(forest)[l]),
    decreases forest, 1nat,
{
    let init = forest.drop_last();
    let last = forest.last();
    let index = forest.len() - 1;
    let m = alert_paths(init).len() as int;
    if l < m {
        lemma_paths_in_document_order(init, k, l);
    } else if k >= m {
        lemma_paths_under_in_document_order(last, index, k - m, l - m);
    } else {
        let early = alert_paths(init)[k];
        let late = alert_paths_in(last, index)[l - m];
        lemma_alerts_at_paths(init);
        assert(collects(init, early));
        lemma_paths_start_at(last, index, l - m);
        assert(early.take(0) =~= late.take(0));
    }
}

/// The same, for the positions at or below one element.
pub proof fn lemma_paths_under_in_document_order(
    e: AccessibilityElement,
    index: int,
    k: int,
    l: int,
)
    requires
        0 <= k < l < alert_paths_in(e, index).len(),
    ensures
        is_before(alert_paths_in(e, index)[k], alert_paths_in(e, index)[l]),
    decreases e, 0nat,
{
    let children = e.children->0@;
    lemma_paths_in_document_order(children, k, l);
    let early = alert_paths(children)[k];
    let late = alert_paths(children)[l];
    let j = choose|j: int|
        0 <= j < early.len() && j < late.len() && #[trigger] early.take(j) == late.take(j)
            && early[j] < late[j];
    assert((seq![index] + early).take(j + 1) =~= seq![index] + early.take(j));
    assert((seq![index] + late).take(j + 1) =~= seq![index] + late.take(j));
}

} // verus!
