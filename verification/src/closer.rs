//! The batch closer: which action dismisses each notification group, in which
//! order the groups are visited, and how many were closed.

use vstd::prelude::*;
use crate::element::{targets, AccessibilityElement};
use crate::platform::Platform;
use crate::tally::{
    count_true, in_order, is_visiting_order, lemma_count_true_bounds, lemma_count_true_concat,
    lemma_count_true_ignores_order, lemma_count_true_remove, lemma_count_true_single,
};
use crate::text::contains_text;
use crate::vocabulary::{close_action, is_close_action, lemma_dismiss_names};

verus! {

/// `at` is the first descriptor in `actions` that names a dismiss action.
pub open spec fn is_first_close_action(actions: Seq<String>, at: int) -> bool {
    &&& 0 <= at < actions.len()
    &&& close_action(actions[at]@)
    &&& forall|k: int| 0 <= k < at ==> !close_action(#[trigger] actions[k]@)
}

/// The position of the action that dismisses `group`: the first of its
/// descriptors that names a dismiss action. `None` when the group has no
/// action list or none of its descriptors does.
pub open spec fn dismiss_action(group: AccessibilityElement) -> Option<int> {
    if group.actions is Some && exists|at: int| is_first_close_action(group.actions->0@, at) {
        Some(choose|at: int| is_first_close_action(group.actions->0@, at))
    } else {
        None
    }
}

/// For each group, whether it was closed: it has a dismiss action, and
/// performing that action reported success. `succeeded[i]` is what performing
/// the dismiss action of `groups[i]` reported; it is not looked at for a group
/// without one.
pub open spec fn closed_flags(groups: Seq<AccessibilityElement>, succeeded: Seq<bool>) -> Seq<
    bool,
> {
    Seq::new(groups.len(), |i: int| dismiss_action(groups[i]) is Some && succeeded[i])
}

/// The number of groups that were closed.
pub open spec fn closed_count(groups: Seq<AccessibilityElement>, succeeded: Seq<bool>) -> nat {
    count_true(closed_flags(groups, succeeded))
}

/// One unit of the closer's work: perform the action at position `action` of
/// the group at position `group`.
#[derive(Debug, Clone, Copy, PartialEq, Eq, Structural)]
pub struct CloseRequest {
    pub group: usize,
    pub action: usize,
}

/// The work that `groups` ask for: one request for each group that has a
/// dismiss action, the group discovered last coming first.
pub open spec fn requests_for(groups: Seq<AccessibilityElement>) -> Seq<CloseRequest>
    decreases groups.len(),
{
    if groups.len() == 0 {
        Seq::empty()
    } else {
        let last = groups.len() - 1;
        let earlier = requests_for(groups.drop_last());
        match dismiss_action(groups[last]) {
            Some(at) => seq![(CloseRequest { group: last as usize, action: at as usize })]
                + earlier,
            None => earlier,
        }
    }
}

/// `succeeded` records a run of `perform` over `groups`: for every group with
/// a dismiss action, `succeeded` holds at its position a value that `perform`
/// can return for that group and that action.
pub open spec fn is_run_of<F: Fn(&AccessibilityElement, &String) -> bool>(
    groups: Seq<AccessibilityElement>,
    perform: F,
    succeeded: Seq<bool>,
) -> bool {
    &&& succeeded.len() == groups.len()
    &&& forall|i: int|
        0 <= i < groups.len() && dismiss_action(groups[i]) is Some ==> perform.ensures(
            (&groups[i], &groups[i].actions->0@[dismiss_action(groups[i])->0]),
            #[trigger] succeeded[i],
        )
}

/// One of the group's descriptors contains `name`.
pub open spec fn offers(group: AccessibilityElement, name: Seq<char>) -> bool {
    &&& group.actions is Some
    &&& exists|j: int|
        0 <= j < group.actions->0@.len() && contains_text(#[trigger] group.actions->0@[j]@, name)
}

/// The group has no action list, or none of its descriptors names a dismiss
/// action.
pub open spec fn is_unclosable(group: AccessibilityElement) -> bool {
    group.actions is Some ==> forall|j: int|
        0 <= j < group.actions->0@.len() ==> !close_action(#[trigger] group.actions->0@[j]@)
}

/// What each request of `groups` reports, when `succeeded` holds for each
/// group what performing its dismiss action reports.
pub open spec fn request_outcomes(groups: Seq<AccessibilityElement>, succeeded: Seq<bool>) -> Seq<
    bool,
> {
    Seq::new(requests_for(groups).len(), |k: int| succeeded[requests_for(groups)[k].group as int])
}

/// Whatever `perform` is called with, it reports success.
pub open spec fn always_succeeds<F: Fn(&AccessibilityElement, &String) -> bool>(perform: F) -> bool {
    forall|group: &AccessibilityElement, action: &String, success: bool|
        perform.ensures((group, action), success) ==> success
}

/// A list of descriptors has at most one first dismiss action.
pub proof fn lemma_first_close_action_unique(actions: Seq<String>, a: int, b: int)
    requires
        is_first_close_action(actions, a),
        is_first_close_action(actions, b),
    ensures
        a == b,
{
}

/// Finds the first descriptor in `actions` that names a dismiss action.
pub fn find_close_action(actions: &[String]) -> (found: Option<usize>)
    ensures
        match found {
            Some(at) => is_first_close_action(actions@, at as int),
            None => forall|k: int| 0 <= k < actions.len() ==> !close_action(#[trigger] actions[k]@),
        },
{
    let mut at: usize = 0;
    while at < actions.len()
        invariant
            at <= actions.len(),
            forall|k: int| 0 <= k < at ==> !close_action(#[trigger] actions[k]@),
        decreases actions.len() - at,
    {
        if is_close_action(&actions[at]) {
            return Some(at);
        }
        at += 1;
    }
    None
}

/// Finds the action that dismisses `group`, if it has one.
pub fn find_dismiss_action(group: &AccessibilityElement) -> (found: Option<usize>)
    ensures
        match found {
            Some(at) => dismiss_action(*group) == Some(at as int),
            None => dismiss_action(*group) is None,
        },
{
    match Platform::get_actions(group) {
        Some(actions) => {
            let found = find_close_action(actions);
            proof {
                if let Some(at) = found {
                    lemma_first_close_action_unique(
                        actions@,
                        at as int,
                        choose|k: int| is_first_close_action(actions@, k),
                    );
                }
            }
            found
        },
        None => None,
    }
}

/// Lists the closer's work for `groups`: one request for each group that has a
/// dismiss action, the group discovered last coming first.
pub fn close_requests(groups: &[&AccessibilityElement]) -> (requests: Vec<CloseRequest>)
    ensures
        requests@ == requests_for(targets(groups@)),
{
    let ghost all = targets(groups@);
    let mut requests: Vec<CloseRequest> = Vec::new();
    let mut i: usize = groups.len();
    assert(all.take(i as int) =~= all);
    while i > 0
        invariant
            i <= groups.len(),
            all == targets(groups@),
            requests@ + requests_for(all.take(i as int)) == requests_for(all),
        decreases i,
    {
        i -= 1;
        let ghost before = requests@;
        proof {
            assert(all.take(i + 1).drop_last() =~= all.take(i as int));
            assert(all.take(i + 1)[i as int] == *groups@[i as int]);
        }
        if let Some(at) = find_dismiss_action(groups[i]) {
            requests.push(CloseRequest { group: i, action: at });
            assert(requests@ + requests_for(all.take(i as int)) =~= before + requests_for(
                all.take(i + 1),
            ));
        }
    }
    assert(requests@ + requests_for(all.take(0)) =~= requests@);
    requests
}

/// Closes `groups` one at a time, the group discovered last first.
///
/// For a group with a dismiss action, `perform` is called once, with the
/// group and that action's descriptor; the group counts as closed when it
/// returns `true`. A group without a dismiss action is passed over. Returns
/// the number of groups closed.
pub fn close_batch_groups<F>(groups: &[&AccessibilityElement], perform: F) -> (closed: usize) where
    F: Fn(&AccessibilityElement, &String) -> bool,

    requires
        forall|group: &AccessibilityElement, action: &String| perform.requires((group, action)),
    ensures
        exists|succeeded: Seq<bool>|
            #[trigger] is_run_of(targets(groups@), perform, succeeded) && closed == closed_count(
                targets(groups@),
                succeeded,
            ),
        always_succeeds(perform) ==> closed == requests_for(targets(groups@)).len(),
        closed <= groups.len(),
        groups.len() == 0 ==> closed == 0,
{
    let ghost all = targets(groups@);
    let ghost mut succeeded = Seq::new(all.len(), |i: int| false);
    let mut closed: usize = 0;
    let mut i: usize = groups.len();
    assert(closed_flags(all, succeeded).skip(i as int) =~= Seq::<bool>::empty());
    while i > 0
        invariant
            i <= groups.len(),
            all == targets(groups@),
            succeeded.len() == all.len(),
            closed == count_true(closed_flags(all, succeeded).skip(i as int)),
            closed <= groups.len() - i,
            forall|j: int|
                i <= j < all.len() && dismiss_action(all[j]) is Some ==> perform.ensures(
                    (&all[j], &all[j].actions->0@[dismiss_action(all[j])->0]),
                    #[trigger] succeeded[j],
                ),
            forall|group: &AccessibilityElement, action: &String| perform.requires((group, action)),
        decreases i,
    {
        i -= 1;
        let group = groups[i];
        let ghost before = succeeded;
        let mut success = false;
        if let Some(actions) = Platform::get_actions(group) {
            if let Some(at) = find_close_action(actions) {
                proof {
                    lemma_first_close_action_unique(
                        actions@,
                        at as int,
                        choose|k: int| is_first_close_action(actions@, k),
                    );
                }
                success = perform(group, &actions[at]);
                proof {
                    succeeded = succeeded.update(i as int, success);
                }
            }
        }
        proof {
            let flags = closed_flags(all, succeeded);
            assert(flags.skip(i as int) =~= seq![flags[i as int]] + closed_flags(all, before).skip(
                i + 1,
            ));
            lemma_count_true_concat(seq![flags[i as int]], closed_flags(all, before).skip(i + 1));
            lemma_count_true_single(flags[i as int]);
        }
        if success {
            closed += 1;
        }
    }
    proof {
        assert(closed_flags(all, succeeded).skip(0) =~= closed_flags(all, succeeded));
        assert(is_run_of(all, perform, succeeded));
        if always_succeeds(perform) {
            lemma_successful_run_closes_every_request(all, perform, succeeded);
        }
    }
    closed
}

/// Where one descriptor names a dismiss action, there is a first that does.
pub proof fn lemma_first_close_action_exists(actions: Seq<String>, at: int)
    requires
        0 <= at < actions.len(),
        close_action(actions[at]@),
    ensures
        exists|first: int| is_first_close_action(actions, first),
    decreases at,
{
    if exists|k: int| 0 <= k < at && close_action(#[trigger] actions[k]@) {
        let k = choose|k: int| 0 <= k < at && close_action(#[trigger] actions[k]@);
        lemma_first_close_action_exists(actions, k);
    } else {
        assert(is_first_close_action(actions, at));
    }
}

/// A group has a dismiss action exactly when one of its descriptors names
/// one, and the dismiss action is the first that does.
pub proof fn lemma_dismiss_action(group: AccessibilityElement)
    ensures
        dismiss_action(group) is None <==> is_unclosable(group),
        dismiss_action(group) matches Some(at) ==> group.actions is Some && is_first_close_action(
            group.actions->0@,
            at,
        ),
{
    if group.actions is Some {
        let actions = group.actions->0@;
        if !is_unclosable(group) {
            let j = choose|j: int| 0 <= j < actions.len() && close_action(#[trigger] actions[j]@);
            lemma_first_close_action_exists(actions, j);
        }
    }
}

/// Every request names a group and that group's dismiss action.
pub proof fn lemma_requests_name_dismiss_actions(groups: Seq<AccessibilityElement>, k: int)
    requires
        groups.len() <= usize::MAX,
        0 <= k < requests_for(groups).len(),
    ensures
        0 <= requests_for(groups)[k].group < groups.len(),
        dismiss_action(groups[requests_for(groups)[k].group as int]) == Some(
            requests_for(groups)[k].action as int,
        ),
        groups[requests_for(groups)[k].group as int].actions is Some,
        requests_for(groups)[k].action < groups[requests_for(
            groups,
        )[k].group as int].actions->0@.len(),
    decreases groups.len(),
{
    let last = groups.len() - 1;
    let earlier = groups.drop_last();
    lemma_dismiss_action(groups[last]);
    if dismiss_action(groups[last]) is Some && k == 0 {
        assert(groups[last].actions->0.len() == groups[last].actions->0@.len());
    } else if dismiss_action(groups[last]) is Some {
        lemma_requests_name_dismiss_actions(earlier, k - 1);
    } else {
        lemma_requests_name_dismiss_actions(earlier, k);
    }
}

/// The requests come last-discovered first: a request that comes earlier
/// names a group that was discovered later.
pub proof fn lemma_requests_last_first(groups: Seq<AccessibilityElement>, k: int, l: int)
    requires
        groups.len() <= usize::MAX,
        0 <= k < l < requests_for(groups).len(),
    ensures
        requests_for(groups)[k].group > requests_for(groups)[l].group,
    decreases groups.len(),
{
    let last = groups.len() - 1;
    let earlier = groups.drop_last();
    if dismiss_action(groups[last]) is Some && k == 0 {
        lemma_requests_name_dismiss_actions(earlier, l - 1);
    } else if dismiss_action(groups[last]) is Some {
        lemma_requests_last_first(earlier, k - 1, l - 1);
    } else {
        lemma_requests_last_first(earlier, k, l);
    }
}

/// Every group with a dismiss action is asked for, whatever the other groups
/// hold.
pub proof fn lemma_closable_group_is_requested(groups: Seq<AccessibilityElement>, i: int)
    requires
        groups.len() <= usize::MAX,
        0 <= i < groups.len(),
        dismiss_action(groups[i]) is Some,
    ensures
        requests_for(groups).contains(
            (CloseRequest { group: i as usize, action: dismiss_action(groups[i])->0 as usize }),
        ),
    decreases groups.len(),
{
    let last = groups.len() - 1;
    let earlier = groups.drop_last();
    let wanted = CloseRequest { group: i as usize, action: dismiss_action(groups[i])->0 as usize };
    if i == last {
        assert(requests_for(groups)[0] == wanted);
    } else {
        lemma_closable_group_is_requested(earlier, i);
        let k = choose|k: int| 0 <= k < requests_for(earlier).len() && requests_for(earlier)[k] == wanted;
        if dismiss_action(groups[last]) is Some {
            assert(requests_for(groups)[k + 1] == wanted);
        } else {
            assert(requests_for(groups)[k] == wanted);
        }
    }
}

/// Counting the requests that succeeded gives the number of groups closed.
pub proof fn lemma_tally_is_closed_count(groups: Seq<AccessibilityElement>, succeeded: Seq<bool>)
    requires
        groups.len() <= usize::MAX,
        succeeded.len() == groups.len(),
    ensures
        count_true(request_outcomes(groups, succeeded)) == closed_count(groups, succeeded),
    decreases groups.len(),
{
    if groups.len() == 0 {
        assert(request_outcomes(groups, succeeded) =~= Seq::<bool>::empty());
        assert(closed_flags(groups, succeeded) =~= Seq::<bool>::empty());
    } else {
        let last = groups.len() - 1;
        let earlier = groups.drop_last();
        let before = succeeded.drop_last();
        lemma_tally_is_closed_count(earlier, before);
        assert(closed_flags(groups, succeeded).drop_last() =~= closed_flags(earlier, before));
        assert forall|k: int| 0 <= k < requests_for(earlier).len() implies succeeded[requests_for(
            earlier,
        )[k].group as int] == before[requests_for(earlier)[k].group as int] by {
            lemma_requests_name_dismiss_actions(earlier, k);
        }
        if dismiss_action(groups[last]) is Some {
            assert(request_outcomes(groups, succeeded) =~= seq![succeeded[last]] + request_outcomes(
                earlier,
                before,
            ));
            lemma_count_true_concat(seq![succeeded[last]], request_outcomes(earlier, before));
            lemma_count_true_single(succeeded[last]);
        } else {
            assert(request_outcomes(groups, succeeded) =~= request_outcomes(earlier, before));
        }
    }
}

/// Where every group offers a descriptor that contains `Name:Close` and every
/// action performed reports success, all groups are closed.
pub proof fn lemma_closable_groups_are_all_closed(
    groups: Seq<AccessibilityElement>,
    succeeded: Seq<bool>,
)
    requires
        succeeded.len() == groups.len(),
        forall|i: int| 0 <= i < groups.len() ==> offers(#[trigger] groups[i], "Name:Close"@),
        forall|i: int| 0 <= i < groups.len() ==> succeeded[i],
    ensures
        closed_count(groups, succeeded) == groups.len(),
{
    lemma_dismiss_names();
    assert forall|i: int| 0 <= i < groups.len() implies closed_flags(groups, succeeded)[i] by {
        assert(offers(groups[i], "Name:Close"@));
        lemma_dismiss_action(groups[i]);
    }
    lemma_count_true_bounds(closed_flags(groups, succeeded));
}

/// A group without a dismiss action adds nothing to the count and leaves what
/// the other groups add as it is.
pub proof fn lemma_unclosable_group_adds_nothing(
    groups: Seq<AccessibilityElement>,
    succeeded: Seq<bool>,
    at: int,
)
    requires
        succeeded.len() == groups.len(),
        0 <= at < groups.len(),
        is_unclosable(groups[at]),
    ensures
        closed_count(groups, succeeded) == closed_count(groups.remove(at), succeeded.remove(at)),
{
    lemma_dismiss_action(groups[at]);
    lemma_count_true_remove(closed_flags(groups, succeeded), at);
    assert(closed_flags(groups, succeeded).remove(at) =~= closed_flags(
        groups.remove(at),
        succeeded.remove(at),
    ));
}

/// The number of groups closed does not depend on the order in which the
/// groups are visited.
pub proof fn lemma_closed_count_ignores_order(
    groups: Seq<AccessibilityElement>,
    succeeded: Seq<bool>,
    order: Seq<int>,
)
    requires
        succeeded.len() == groups.len(),
        is_visiting_order(order, groups.len()),
    ensures
        closed_count(in_order(groups, order), in_order(succeeded, order)) == closed_count(
            groups,
            succeeded,
        ),
{
    assert(closed_flags(in_order(groups, order), in_order(succeeded, order)) =~= in_order(
        closed_flags(groups, succeeded),
        order,
    ));
    lemma_count_true_ignores_order(closed_flags(groups, succeeded), order);
}

/// Both modes close the same number of groups. One after the other, the
/// closer closes `closed_count` groups. With one worker for each request, the
/// workers' reports come in in some order; counting them gives the same
/// number, whatever the order.
pub proof fn lemma_modes_agree(
    groups: Seq<AccessibilityElement>,
    succeeded: Seq<bool>,
    arrival: Seq<int>,
)
    requires
        groups.len() <= usize::MAX,
        succeeded.len() == groups.len(),
        is_visiting_order(arrival, requests_for(groups).len()),
    ensures
        count_true(in_order(request_outcomes(groups, succeeded), arrival)) == closed_count(
            groups,
            succeeded,
        ),
{
    lemma_count_true_ignores_order(request_outcomes(groups, succeeded), arrival);
    lemma_tally_is_closed_count(groups, succeeded);
}

/// A run in which every action performed reports success closes as many
/// groups as there are requests.
pub proof fn lemma_successful_run_closes_every_request<F: Fn(&AccessibilityElement, &String) -> bool>(
    groups: Seq<AccessibilityElement>,
    perform: F,
    succeeded: Seq<bool>,
)
    requires
        groups.len() <= usize::MAX,
        is_run_of(groups, perform, succeeded),
        always_succeeds(perform),
    ensures
        closed_count(groups, succeeded) == requests_for(groups).len(),
{
    let outcomes = request_outcomes(groups, succeeded);
    assert forall|k: int| 0 <= k < outcomes.len() implies outcomes[k] by {
        lemma_requests_name_dismiss_actions(groups, k);
        assert(succeeded[requests_for(groups)[k].group as int]);
    }
    lemma_count_true_bounds(outcomes);
    lemma_tally_is_closed_count(groups, succeeded);
}

} // verus!
