use notification_closer::element::AccessibilityElement;
use notification_closer::locator::{
    get_notification_center_groups, notification_elements, LocateError,
};

fn element(
    handle: u64,
    role: Option<&str>,
    subrole: Option<&str>,
    children: Option<Vec<AccessibilityElement>>,
) -> AccessibilityElement {
    AccessibilityElement {
        handle,
        role: role.map(|r| r.to_string()),
        subrole: subrole.map(|s| s.to_string()),
        windows: None,
        children,
        actions: None,
    }
}

fn alert(handle: u64) -> AccessibilityElement {
    element(handle, Some("AXGroup"), Some("AXNotificationCenterAlert"), None)
}

fn group(handle: u64, children: Vec<AccessibilityElement>) -> AccessibilityElement {
    element(handle, Some("AXGroup"), None, Some(children))
}

fn window(handle: u64, children: Option<Vec<AccessibilityElement>>) -> AccessibilityElement {
    element(handle, Some("AXWindow"), None, children)
}

fn root(windows: Option<Vec<AccessibilityElement>>) -> AccessibilityElement {
    AccessibilityElement {
        handle: 0,
        role: Some("AXApplication".to_string()),
        subrole: None,
        windows,
        children: None,
        actions: None,
    }
}

fn located(root: &AccessibilityElement) -> Vec<u64> {
    get_notification_center_groups(Some(321), Some(root)).unwrap().iter().map(|e| e.handle).collect()
}

#[test]
fn missing_process_is_process_not_found() {
    let app = root(Some(vec![window(1, Some(vec![group(2, vec![group(3, vec![alert(4)])])]))]));
    assert_eq!(
        get_notification_center_groups(None, Some(&app)).unwrap_err(),
        LocateError::ProcessNotFound
    );
    assert_eq!(
        get_notification_center_groups(None, None).unwrap_err(),
        LocateError::ProcessNotFound
    );
}

#[test]
fn missing_root_is_element_creation_failed() {
    assert_eq!(
        get_notification_center_groups(Some(321), None).unwrap_err(),
        LocateError::ElementCreationFailed
    );
}

#[test]
fn absent_windows_give_no_groups() {
    assert_eq!(located(&root(None)), Vec::<u64>::new());
}

#[test]
fn empty_windows_give_no_groups() {
    assert_eq!(located(&root(Some(vec![]))), Vec::<u64>::new());
}

#[test]
fn window_without_children_gives_no_groups() {
    assert_eq!(located(&root(Some(vec![window(1, None)]))), Vec::<u64>::new());
    assert_eq!(located(&root(Some(vec![window(1, Some(vec![]))]))), Vec::<u64>::new());
}

#[test]
fn missing_second_hop_gives_no_groups() {
    let childless = element(2, Some("AXGroup"), None, None);
    assert_eq!(located(&root(Some(vec![window(1, Some(vec![childless]))]))), Vec::<u64>::new());
    let empty = group(2, vec![]);
    assert_eq!(located(&root(Some(vec![window(1, Some(vec![empty]))]))), Vec::<u64>::new());
}

#[test]
fn missing_third_hop_gives_no_groups() {
    let stack_without_children = element(3, Some("AXGroup"), None, None);
    let app = root(Some(vec![window(1, Some(vec![group(2, vec![stack_without_children])]))]));
    assert_eq!(located(&app), Vec::<u64>::new());
    let empty_stack = group(3, vec![]);
    let app = root(Some(vec![window(1, Some(vec![group(2, vec![empty_stack])]))]));
    assert_eq!(located(&app), Vec::<u64>::new());
}

#[test]
fn descent_reaches_the_alerts() {
    let app = root(Some(vec![window(
        1,
        Some(vec![group(2, vec![group(3, vec![alert(4), group(5, vec![alert(6)]), alert(7)])])]),
    )]));
    assert_eq!(located(&app), vec![4, 6, 7]);
}

#[test]
fn descent_does_not_ask_for_roles_on_the_way() {
    let layout = element(2, None, None, Some(vec![element(3, None, None, Some(vec![alert(4)]))]));
    let app = root(Some(vec![element(1, None, None, Some(vec![layout]))]));
    assert_eq!(located(&app), vec![4]);
}

#[test]
fn only_the_first_window_is_searched() {
    let first = window(1, Some(vec![group(2, vec![group(3, vec![alert(4)])])]));
    let second = window(10, Some(vec![group(20, vec![group(30, vec![alert(40)])])]));
    assert_eq!(located(&root(Some(vec![first, second]))), vec![4]);
    let first = window(1, None);
    let second = window(10, Some(vec![group(20, vec![group(30, vec![alert(40)])])]));
    assert_eq!(located(&root(Some(vec![first, second]))), Vec::<u64>::new());
}

#[test]
fn only_first_children_are_followed() {
    let app = root(Some(vec![window(
        1,
        Some(vec![
            group(2, vec![group(3, vec![alert(4)]), group(5, vec![alert(6)])]),
            group(7, vec![group(8, vec![alert(9)])]),
        ]),
    )]));
    assert_eq!(located(&app), vec![4]);
}

#[test]
fn alerts_above_the_container_are_not_found() {
    let app = root(Some(vec![window(1, Some(vec![alert(2)]))]));
    assert_eq!(located(&app), Vec::<u64>::new());
    let app = root(Some(vec![window(1, Some(vec![group(2, vec![alert(3)])]))]));
    assert_eq!(located(&app), Vec::<u64>::new());
}

#[test]
fn notification_elements_follows_two_first_children() {
    let w = window(1, Some(vec![group(2, vec![group(3, vec![alert(4), alert(5)])])]));
    let reached = notification_elements(&w).unwrap();
    assert_eq!(reached.iter().map(|e| e.handle).collect::<Vec<u64>>(), vec![4, 5]);
    assert!(notification_elements(&window(1, None)).is_none());
    assert!(notification_elements(&window(1, Some(vec![]))).is_none());
    let w = window(1, Some(vec![group(2, vec![group(3, vec![])])]));
    assert_eq!(notification_elements(&w).unwrap().len(), 0);
}
