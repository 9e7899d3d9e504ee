//! The fixed names by which notification alerts and their dismiss actions are
//! recognised.

use vstd::prelude::*;
use vstd::string::StringExecFns;
use crate::text::{contains_text, has_text, same_text};

verus! {

pub const ROLE_GROUP: &'static str = "AXGroup";

pub const ROLE_SCROLL_AREA: &'static str = "AXScrollArea";

pub const ROLE_LIST: &'static str = "AXList";

pub const ROLE_SPLIT_GROUP: &'static str = "AXSplitGroup";

pub const SUBROLE_NOTIFICATION_ALERT: &'static str = "AXNotificationCenterAlert";

pub const SUBROLE_NOTIFICATION_ALERT_STACK: &'static str = "AXNotificationCenterAlertStack";

pub const ACTION_CLOSE: &'static str = "Close";

pub const ACTION_CLEAR_ALL: &'static str = "Clear All";

/// The field of an action descriptor that carries the action's readable name.
pub const NAME_FIELD: &'static str = "Name:";

/// A role whose elements hold other elements and are searched for alerts.
pub open spec fn container_role(role: Seq<char>) -> bool {
    ||| role == ROLE_GROUP@
    ||| role == ROLE_SCROLL_AREA@
    ||| role == ROLE_LIST@
    ||| role == ROLE_SPLIT_GROUP@
}

/// A subrole that marks an element as a notification alert or a stack of them.
pub open spec fn notification_subrole(subrole: Seq<char>) -> bool {
    ||| subrole == SUBROLE_NOTIFICATION_ALERT@
    ||| subrole == SUBROLE_NOTIFICATION_ALERT_STACK@
}

/// An action descriptor that names one of the dismiss actions.
pub open spec fn close_action(action: Seq<char>) -> bool {
    ||| contains_text(action, NAME_FIELD@ + ACTION_CLOSE@)
    ||| contains_text(action, NAME_FIELD@ + ACTION_CLEAR_ALL@)
}

/// Whether `role` is one of the container roles.
pub fn is_container_role(role: &str) -> (yes: bool)
    ensures
        yes == container_role(role@),
{
    same_text(role, ROLE_GROUP) || same_text(role, ROLE_SCROLL_AREA) || same_text(role, ROLE_LIST)
        || same_text(role, ROLE_SPLIT_GROUP)
}

/// Whether `subrole` is one of the notification subroles.
pub fn is_notification_subrole(subrole: &str) -> (yes: bool)
    ensures
        yes == notification_subrole(subrole@),
{
    same_text(subrole, SUBROLE_NOTIFICATION_ALERT) || same_text(
        subrole,
        SUBROLE_NOTIFICATION_ALERT_STACK,
    )
}

/// Whether the descriptor `action` names a dismiss action: it contains the
/// name field followed by `Close` or by `Clear All`.
pub fn is_close_action(action: &String) -> (yes: bool)
    ensures
        yes == close_action(action@),
{
    let close = String::from_str(NAME_FIELD).concat(ACTION_CLOSE);
    let clear_all = String::from_str(NAME_FIELD).concat(ACTION_CLEAR_ALL);
    has_text(action.as_str(), close.as_str()) || has_text(action.as_str(), clear_all.as_str())
}

/// The two descriptors' name fields, written out.
pub proof fn lemma_dismiss_names()
    ensures
        NAME_FIELD@ + ACTION_CLOSE@ == "Name:Close"@,
        NAME_FIELD@ + ACTION_CLEAR_ALL@ == "Name:Clear All"@,
{
    reveal_strlit("Name:");
    reveal_strlit("Close");
    reveal_strlit("Clear All");
    reveal_strlit("Name:Close");
    reveal_strlit("Name:Clear All");
    assert(NAME_FIELD@ + ACTION_CLOSE@ =~= "Name:Close"@);
    assert(NAME_FIELD@ + ACTION_CLEAR_ALL@ =~= "Name:Clear All"@);
}

} // verus!
