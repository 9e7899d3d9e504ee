//! The tree walker: which elements of a forest are notification alerts.

use vstd::prelude::*;
use crate::element::{targets, AccessibilityElement};
use crate::platform::Platform;
use crate::vocabulary::{container_role, is_container_role, is_notification_subrole, notification_subrole};

verus! {

/// The element is collected: it has a role, and its subrole is one of the
/// notification subroles.
pub open spec fn is_alert(e: AccessibilityElement) -> bool {
    &&& e.role is Some
    &&& e.subrole is Some
    &&& notification_subrole(e.subrole->0@)
}

/// The element is descended into: it has a role, is no alert, its role is a
/// container role, and it has children.
pub open spec fn is_searched(e: AccessibilityElement) -> bool {
    &&& e.role is Some
    &&& !is_alert(e)
    &&& container_role(e.role->0@)
    &&& e.children is Some
}

/// The alerts found at or below `e`, in pre-order.
pub open spec fn alerts_in(e: AccessibilityElement) -> Seq<AccessibilityElement>
    decreases e, 0nat,
{
    if is_alert(e) {
        seq![e]
    } else if is_searched(e) {
        alerts_among(e.children->0@)
    } else {
        Seq::empty()
    }
}

/// The alerts found in a sequence of siblings and below them, in pre-order.
pub open spec fn alerts_among(elements: Seq<AccessibilityElement>) -> Seq<AccessibilityElement>
    decreases elements, 1nat,
{
    if elements.len() == 0 {
        Seq::empty()
    } else {
        alerts_among(elements.drop_last()) + alerts_in(elements.last())
    }
}

/// Every element that the walker collects is an alert: it has a role, and
/// its subrole is a notification subrole.
pub proof fn lemma_alerts_are_alerts(elements: Seq<AccessibilityElement>)
    ensures
        forall|k: int| 0 <= k < alerts_among(elements).len() ==> is_alert(
            #[trigger] alerts_among(elements)[k],
        ),
    decreases elements, 1nat,
{
    if elements.len() > 0 {
        let earlier = alerts_among(elements.drop_last());
        let below = alerts_in(elements.last());
        lemma_alerts_are_alerts(elements.drop_last());
        lemma_alerts_below_are_alerts(elements.last());
        assert forall|k: int| 0 <= k < alerts_among(elements).len() implies is_alert(
            #[trigger] alerts_among(elements)[k],
        ) by {
            if k < earlier.len() {
                assert(alerts_among(elements)[k] == earlier[k]);
            } else {
                assert(alerts_among(elements)[k] == below[k - earlier.len()]);
            }
        }
    }
}

/// The same, for the alerts at or below one element.
pub proof fn lemma_alerts_below_are_alerts(e: AccessibilityElement)
    ensures
        forall|k: int| 0 <= k < alerts_in(e).len() ==> is_alert(#[trigger] alerts_in(e)[k]),
    decreases e, 0nat,
{
    if !is_alert(e) && is_searched(e) {
        lemma_alerts_are_alerts(e.children->0@);
    }
    assert forall|k: int| 0 <= k < alerts_in(e).len() implies is_alert(
        #[trigger] alerts_in(e)[k],
    ) by {
        if is_alert(e) {
            assert(alerts_in(e)[k] == e);
        } else {
            assert(alerts_in(e)[k] == alerts_among(e.children->0@)[k]);
        }
    }
}

/// Collects the notification alerts found in `elements` and below them.
///
/// The siblings are visited in order. An element without a role is passed
/// over. An element whose subrole is a notification subrole is collected and
/// not looked into. Any other element is looked into when its role is a
/// container role and it has children, and is passed over otherwise.
pub fn find_notification_alerts<'a>(elements: &'a [AccessibilityElement]) -> (alerts: Vec<
    &'a AccessibilityElement,
>)
    ensures
        targets(alerts@) == alerts_among(elements@),
        forall|k: int| 0 <= k < alerts.len() ==> is_alert(*#[trigger] alerts[k]),
        elements.len() == 0 ==> alerts.len() == 0,
    decreases elements@,
{
    let mut alerts: Vec<&'a AccessibilityElement> = Vec::new();
    let mut i: usize = 0;
    while i < elements.len()
        invariant
            i <= elements.len(),
            targets(alerts@) == alerts_among(elements@.take(i as int)),
        decreases elements.len() - i,
    {
        let element = &elements[i];
        let ghost before = alerts@;
        proof {
            assert(elements@.take(i + 1).drop_last() =~= elements@.take(i as int));
            assert(elements@.take(i + 1).last() == *element);
        }
        if let Some(role) = Platform::get_role(element) {
            let mut collected = false;
            if let Some(subrole) = Platform::get_subrole(element) {
                if is_notification_subrole(subrole.as_str()) {
                    alerts.push(element);
                    collected = true;
                    assert(targets(alerts@) =~= targets(before) + seq![*element]);
                }
            }
            if !collected && is_container_role(role.as_str()) {
                if let Some(children) = Platform::get_children(element) {
                    let mut below = find_notification_alerts(children);
                    let ghost found = below@;
                    alerts.append(&mut below);
                    assert(targets(alerts@) =~= targets(before) + targets(found));
                }
            }
        }
        assert(targets(alerts@) =~= targets(before) + alerts_in(*element));
        i += 1;
    }
    proof {
        assert(elements@.take(elements.len() as int) =~= elements@);
        lemma_alerts_are_alerts(elements@);
        assert forall|k: int| 0 <= k < alerts.len() implies is_alert(*#[trigger] alerts[k]) by {
            assert(targets(alerts@)[k] == *alerts[k]);
        }
    }
    alerts
}

} // verus!
