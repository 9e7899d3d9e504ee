//! What the library asks of the platform: the process directory, and the
//! attributes of an element by their platform names.

use vstd::prelude::*;
use crate::element::AccessibilityElement;
use crate::locator::LocateError;
use crate::text::same_text;

verus! {

/// The name of the process that owns the notification panel.
pub const NOTIFICATION_CENTER: &'static str = "NotificationCenter";

/// One line of the process directory.
#[derive(Debug)]
pub struct ProcessEntry {
    pub name: String,
    pub pid: u32,
}

/// Declares `sysinfo::System`, the handle through which the process
/// directory is read. Nothing inside it is visible here.
#[verifier::external_type_specification]
#[verifier::external_body]
pub struct ExSystem(sysinfo::System);

/// `at` is the first entry of `processes` whose name is exactly `name`.
pub open spec fn is_first_named(processes: Seq<ProcessEntry>, name: Seq<char>, at: int) -> bool {
    &&& 0 <= at < processes.len()
    &&& processes[at].name@ == name
    &&& forall|k: int| 0 <= k < at ==> (#[trigger] processes[k]).name@ != name
}

/// Finds the process id of the first entry whose name is exactly `name`.
pub fn find_process(processes: &[ProcessEntry], name: &str) -> (found: Option<i32>)
    ensures
        match found {
            Some(pid) => exists|at: int|
                #[trigger] is_first_named(processes@, name@, at) && pid == processes[at].pid as i32,
            None => forall|k: int|
                0 <= k < processes.len() ==> (#[trigger] processes[k]).name@ != name@,
        },
{
    let mut at: usize = 0;
    while at < processes.len()
        invariant
            at <= processes.len(),
            forall|k: int| 0 <= k < at ==> (#[trigger] processes[k]).name@ != name@,
        decreases processes.len() - at,
    {
        if same_text(processes[at].name.as_str(), name) {
            assert(is_first_named(processes@, name@, at as int));
            return Some(#[verifier::truncate] (processes[at].pid as i32));
        }
        at += 1;
    }
    None
}

/// Calls `sysinfo::System::new_with_specifics` with a refresh kind that asks
/// for the processes and nothing else. Nothing is claimed of the result.
#[verifier::external_body]
fn system_with_processes() -> sysinfo::System {
    sysinfo::System::new_with_specifics(
        sysinfo::RefreshKind::new().with_processes(sysinfo::ProcessRefreshKind::new()),
    )
}

/// Calls `sysinfo::System::refresh_processes` for all processes. Nothing is
/// claimed of the system afterwards.
#[verifier::external_body]
fn refresh_all_processes(system: &mut sysinfo::System) {
    system.refresh_processes(sysinfo::ProcessesToUpdate::All);
}

/// Calls `sysinfo::System::processes` and hands out, for each process in the
/// order in which the map is walked, its name and its id as plain values.
/// Nothing is claimed of the entries: they are whatever runs on the machine.
#[verifier::external_body]
fn process_entries(system: &sysinfo::System) -> Vec<ProcessEntry> {
    system.processes().values().map(
        |p| ProcessEntry { name: p.name().to_string_lossy().into_owned(), pid: p.pid().as_u32() },
    ).collect()
}

pub const ATTRIBUTE_WINDOWS: &'static str = "AXWindows";

pub const ATTRIBUTE_CHILDREN: &'static str = "AXChildren";

pub const ATTRIBUTE_ROLE: &'static str = "AXRole";

pub const ATTRIBUTE_SUBROLE: &'static str = "AXSubrole";

/// What an attribute of an element holds.
#[derive(Debug)]
pub enum AttributeValue<'a> {
    Text(&'a String),
    Elements(&'a Vec<AccessibilityElement>),
}

/// The value of the attribute `name` of `element`.
pub open spec fn attribute_of<'a>(element: &'a AccessibilityElement, name: Seq<char>) -> Option<
    AttributeValue<'a>,
> {
    if name == ATTRIBUTE_ROLE@ {
        match element.role {
            Some(role) => Some(AttributeValue::Text(&role)),
            None => None,
        }
    } else if name == ATTRIBUTE_SUBROLE@ {
        match element.subrole {
            Some(subrole) => Some(AttributeValue::Text(&subrole)),
            None => None,
        }
    } else if name == ATTRIBUTE_CHILDREN@ {
        match element.children {
            Some(children) => Some(AttributeValue::Elements(&children)),
            None => None,
        }
    } else if name == ATTRIBUTE_WINDOWS@ {
        match element.windows {
            Some(windows) => Some(AttributeValue::Elements(&windows)),
            None => None,
        }
    } else {
        None
    }
}

/// The four attribute names are four different texts.
pub proof fn lemma_attribute_names_differ()
    ensures
        ATTRIBUTE_ROLE@ != ATTRIBUTE_SUBROLE@,
        ATTRIBUTE_ROLE@ != ATTRIBUTE_CHILDREN@,
        ATTRIBUTE_ROLE@ != ATTRIBUTE_WINDOWS@,
        ATTRIBUTE_SUBROLE@ != ATTRIBUTE_CHILDREN@,
        ATTRIBUTE_SUBROLE@ != ATTRIBUTE_WINDOWS@,
        ATTRIBUTE_CHILDREN@ != ATTRIBUTE_WINDOWS@,
{
    reveal_strlit("AXRole");
    reveal_strlit("AXSubrole");
    reveal_strlit("AXChildren");
    reveal_strlit("AXWindows");
    assert(ATTRIBUTE_ROLE@.len() == 6);
    assert(ATTRIBUTE_SUBROLE@.len() == 9);
    assert(ATTRIBUTE_CHILDREN@.len() == 10);
    assert(ATTRIBUTE_WINDOWS@[2] == 'W');
    assert(ATTRIBUTE_SUBROLE@[2] == 'S');
}

/// The platform's side of the library.
pub struct Platform;

impl Platform {
    /// Looks the notification centre up among the running processes.
    ///
    /// Fails with `ProcessNotFound`, and with nothing else; which of the two
    /// happens depends on what runs on the machine.
    pub fn get_notification_center_pid() -> (found: Result<i32, LocateError>)
        ensures
            found is Err ==> found == Err::<i32, LocateError>(LocateError::ProcessNotFound),
    {
        let mut system = system_with_processes();
        refresh_all_processes(&mut system);
        let processes = process_entries(&system);
        notification_center_among(processes.as_slice())
    }

    /// Reads the attribute of `element` that the platform calls `attribute_name`.
    ///
    /// `None` when the element lacks the attribute, and for any name but the
    /// four that the platform defines here.
    pub fn get_attribute<'a>(element: &'a AccessibilityElement, attribute_name: &str) -> (value:
        Option<AttributeValue<'a>>)
        ensures
            value == attribute_of(element, attribute_name@),
    {
        if same_text(attribute_name, ATTRIBUTE_ROLE) {
            match &element.role {
                Some(role) => Some(AttributeValue::Text(role)),
                None => None,
            }
        } else if same_text(attribute_name, ATTRIBUTE_SUBROLE) {
            match &element.subrole {
                Some(subrole) => Some(AttributeValue::Text(subrole)),
                None => None,
            }
        } else if same_text(attribute_name, ATTRIBUTE_CHILDREN) {
            match &element.children {
                Some(children) => Some(AttributeValue::Elements(children)),
                None => None,
            }
        } else if same_text(attribute_name, ATTRIBUTE_WINDOWS) {
            match &element.windows {
                Some(windows) => Some(AttributeValue::Elements(windows)),
                None => None,
            }
        } else {
            None
        }
    }

    /// The windows of `element`; none when the attribute is absent.
    pub fn get_window_list<'a>(element: &'a AccessibilityElement) -> (windows: &'a [AccessibilityElement])
        ensures
            windows@ == match element.windows {
                Some(w) => w@,
                None => Seq::empty(),
            },
    {
        proof {
            lemma_attribute_names_differ();
        }
        match Self::get_attribute(element, ATTRIBUTE_WINDOWS) {
            Some(AttributeValue::Elements(windows)) => windows.as_slice(),
            _ => &[],
        }
    }

    /// The children of `element`, if it has the attribute.
    pub fn get_children<'a>(element: &'a AccessibilityElement) -> (children: Option<
        &'a [AccessibilityElement],
    >)
        ensures
            match children {
                Some(c) => element.children is Some && c@ == element.children->0@,
                None => element.children is None,
            },
    {
        proof {
            lemma_attribute_names_differ();
        }
        match Self::get_attribute(element, ATTRIBUTE_CHILDREN) {
            Some(AttributeValue::Elements(children)) => Some(children.as_slice()),
            _ => None,
        }
    }

    /// The role of `element`, if it has one.
    pub fn get_role<'a>(element: &'a AccessibilityElement) -> (role: Option<&'a String>)
        ensures
            match role {
                Some(r) => element.role == Some(*r),
                None => element.role is None,
            },
    {
        match Self::get_attribute(element, ATTRIBUTE_ROLE) {
            Some(AttributeValue::Text(role)) => Some(role),
            _ => None,
        }
    }

    /// The subrole of `element`, if it has one.
    pub fn get_subrole<'a>(element: &'a AccessibilityElement) -> (subrole: Option<&'a String>)
        ensures
            match subrole {
                Some(s) => element.subrole == Some(*s),
                None => element.subrole is None,
            },
    {
        proof {
            lemma_attribute_names_differ();
        }
        match Self::get_attribute(element, ATTRIBUTE_SUBROLE) {
            Some(AttributeValue::Text(subrole)) => Some(subrole),
            _ => None,
        }
    }

    /// The action descriptors of `element`, if it has any list of them.
    pub fn get_actions<'a>(element: &'a AccessibilityElement) -> (actions: Option<&'a [String]>)
        ensures
            match actions {
                Some(a) => element.actions is Some && a@ == element.actions->0@,
                None => element.actions is None,
            },
    {
        match &element.actions {
            Some(actions) => Some(actions.as_slice()),
            None => None,
        }
    }
}

/// Looks the notification centre up in a given process table.
///
/// Gives the id of the first entry whose name is exactly the notification
/// centre's, and fails with `ProcessNotFound` when no entry has that name.
pub fn notification_center_among(processes: &[ProcessEntry]) -> (found: Result<i32, LocateError>)
    ensures
        match found {
            Ok(pid) => exists|at: int|
                #[trigger] is_first_named(processes@, NOTIFICATION_CENTER@, at) && pid
                    == processes[at].pid as i32,
            Err(error) => {
                &&& error == LocateError::ProcessNotFound
                &&& forall|k: int|
                    0 <= k < processes.len() ==> (#[trigger] processes[k]).name@
                        != NOTIFICATION_CENTER@
            },
        },
{
    match find_process(processes, NOTIFICATION_CENTER) {
        Some(pid) => Ok(pid),
        None => Err(LocateError::ProcessNotFound),
    }
}

} // verus!
