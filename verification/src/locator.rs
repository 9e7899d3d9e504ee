//! The notification locator: from the root element of the notification
//! centre down to its alerts.

use vstd::prelude::*;
use crate::element::{targets, AccessibilityElement};
use crate::platform::Platform;
use crate::walker::{alerts_among, find_notification_alerts};

verus! {

/// Why the notification groups could not be located.
#[derive(Debug, Clone, Copy, PartialEq, Eq, Structural)]
pub enum LocateError {
    /// No running process carries the exact name of the notification centre.
    ProcessNotFound,
    /// The platform could not create the root element of the process.
    ElementCreationFailed,
}

/// The first child of `element`, when it has children and at least one.
pub open spec fn first_child(element: AccessibilityElement) -> Option<AccessibilityElement> {
    if element.children is Some && element.children->0@.len() > 0 {
        Some(element.children->0@[0])
    } else {
        None
    }
}

/// The elements that hold the alerts of `window`: the children of the first
/// child of its first child. `None` when one of the three hops is missing.
pub open spec fn alert_container(window: AccessibilityElement) -> Option<
    Seq<AccessibilityElement>,
> {
    match first_child(window) {
        Some(layout) => match first_child(layout) {
            Some(stack) => match stack.children {
                Some(children) => Some(children@),
                None => None,
            },
            None => None,
        },
        None => None,
    }
}

/// The notification groups below `root`: the alerts among the alert container
/// of its first window. Empty when the root has no window or the container
/// cannot be reached.
pub open spec fn groups_below(root: AccessibilityElement) -> Seq<AccessibilityElement> {
    if root.windows is Some && root.windows->0@.len() > 0 {
        match alert_container(root.windows->0@[0]) {
            Some(elements) => alerts_among(elements),
            None => Seq::empty(),
        }
    } else {
        Seq::empty()
    }
}

/// What locating yields, given what the process directory and the platform
/// answered: `process` is the id of the notification centre's process, if one
/// was found, and `root` the root element created for it, if one was.
pub open spec fn located(process: Option<i32>, root: Option<&AccessibilityElement>) -> Result<
    Seq<AccessibilityElement>,
    LocateError,
> {
    match process {
        None => Err(LocateError::ProcessNotFound),
        Some(_) => match root {
            None => Err(LocateError::ElementCreationFailed),
            Some(r) => Ok(groups_below(*r)),
        },
    }
}

/// Follows the fixed path from `window` to the elements that hold its alerts.
pub fn notification_elements<'a>(window: &'a AccessibilityElement) -> (reached: Option<
    &'a [AccessibilityElement],
>)
    ensures
        match reached {
            Some(elements) => alert_container(*window) == Some(elements@),
            None => alert_container(*window) is None,
        },
{
    let window_children = Platform::get_children(window)?;
    let layout = window_children.first()?;
    let layout_children = Platform::get_children(layout)?;
    let stack = layout_children.first()?;
    Platform::get_children(stack)
}

/// Locates the notification groups.
///
/// `process` is what the process directory answered for the notification
/// centre; `root` is the root element that the platform created for that
/// process, `None` when it could not. `root` is not looked at when `process`
/// is `None`.
pub fn get_notification_center_groups<'a>(
    process: Option<i32>,
    root: Option<&'a AccessibilityElement>,
) -> (found: Result<Vec<&'a AccessibilityElement>, LocateError>)
    ensures
        match found {
            Ok(groups) => located(process, root) == Ok::<Seq<AccessibilityElement>, LocateError>(
                targets(groups@),
            ),
            Err(error) => located(process, root) == Err::<Seq<AccessibilityElement>, LocateError>(
                error,
            ),
        },
        found is Err <==> process is None || root is None,
        found == Err::<Vec<&AccessibilityElement>, LocateError>(LocateError::ProcessNotFound)
            <==> process is None,
        found == Err::<Vec<&AccessibilityElement>, LocateError>(
            LocateError::ElementCreationFailed,
        ) <==> process is Some && root is None,
{
    if process.is_none() {
        return Err(LocateError::ProcessNotFound);
    }
    let root = match root {
        Some(r) => r,
        None => {
            return Err(LocateError::ElementCreationFailed);
        },
    };
    let windows = Platform::get_window_list(root);
    let window = match windows.first() {
        Some(w) => w,
        None => {
            let none: Vec<&'a AccessibilityElement> = Vec::new();
            assert(targets(none@) =~= Seq::empty());
            return Ok(none);
        },
    };
    match notification_elements(window) {
        Some(elements) => Ok(find_notification_alerts(elements)),
        None => {
            let none: Vec<&'a AccessibilityElement> = Vec::new();
            assert(targets(none@) =~= Seq::empty());
            Ok(none)
        },
    }
}

/// The element has no children to go on with: the attribute is absent, or
/// it holds no element.
pub open spec fn is_childless(element: AccessibilityElement) -> bool {
    element.children is None || element.children->0@.len() == 0
}

/// One of the three hops from `window` to its alert container is missing.
pub open spec fn misses_a_hop(window: AccessibilityElement) -> bool {
    ||| is_childless(window)
    ||| is_childless(window.children->0@[0])
    ||| window.children->0@[0].children->0@[0].children is None
}

/// Where the root has no window, or a hop below its first window is missing,
/// locating yields no group and no error.
pub proof fn lemma_missing_hop_locates_nothing(process: Option<i32>, root: &AccessibilityElement)
    requires
        process is Some,
        root.windows is None || root.windows->0@.len() == 0 || misses_a_hop(root.windows->0@[0]),
    ensures
        located(process, Some(root)) == Ok::<Seq<AccessibilityElement>, LocateError>(Seq::empty()),
{
}

/// Locating fails for the two answers of the platform that it cannot go on
/// from, and for nothing else: whatever the tree below the root holds, the
/// result is a list of groups.
pub proof fn lemma_only_platform_failures_fail(
    process: Option<i32>,
    root: Option<&AccessibilityElement>,
)
    ensures
        located(process, root) == Err::<Seq<AccessibilityElement>, LocateError>(
            LocateError::ProcessNotFound,
        ) <==> process is None,
        located(process, root) == Err::<Seq<AccessibilityElement>, LocateError>(
            LocateError::ElementCreationFailed,
        ) <==> process is Some && root is None,
        located(process, root) is Ok <==> process is Some && root is Some,
{
}

} // verus!
