use notification_closer::element::AccessibilityElement;
use notification_closer::walker::find_notification_alerts;

fn element(
    handle: u64,
    role: Option<&str>,
    subrole: Option<&str>,
    children: Option<Vec<AccessibilityElement>>,
) -> AccessibilityElement {
    AccessibilityElement {
        handle,
        role: role.map(|r| r.to_string()),
        subrole: subrole.map(|s| s.to_string()),
        windows: None,
        children,
        actions: None,
    }
}

fn alert(handle: u64) -> AccessibilityElement {
    element(handle, Some("AXGroup"), Some("AXNotificationCenterAlert"), None)
}

fn stack(handle: u64) -> AccessibilityElement {
    element(handle, Some("AXGroup"), Some("AXNotificationCenterAlertStack"), None)
}

fn group(handle: u64, children: Vec<AccessibilityElement>) -> AccessibilityElement {
    element(handle, Some("AXGroup"), None, Some(children))
}

fn handles(found: &[&AccessibilityElement]) -> Vec<u64> {
    found.iter().map(|e| e.handle).collect()
}

#[test]
fn empty_input_gives_no_alerts() {
    let none: Vec<AccessibilityElement> = Vec::new();
    assert!(find_notification_alerts(&none).is_empty());
}

#[test]
fn alerts_and_stacks_at_top_level_are_collected_in_order() {
    let forest = vec![stack(7), alert(3), alert(5)];
    assert_eq!(handles(&find_notification_alerts(&forest)), vec![7, 3, 5]);
}

#[test]
fn collected_elements_are_the_elements_of_the_input() {
    let forest = vec![group(1, vec![alert(2)]), alert(3)];
    let found = find_notification_alerts(&forest);
    assert_eq!(found.len(), 2);
    assert!(std::ptr::eq(found[0], &forest[0].children.as_ref().unwrap()[0]));
    assert!(std::ptr::eq(found[1], &forest[1]));
}

#[test]
fn every_collected_element_has_a_notification_subrole() {
    let forest = vec![
        group(1, vec![alert(2), element(3, Some("AXButton"), Some("AXCloseButton"), None)]),
        element(4, Some("AXGroup"), Some("AXUnknown"), Some(vec![stack(5)])),
        element(6, Some("AXStaticText"), None, None),
    ];
    let found = find_notification_alerts(&forest);
    assert_eq!(handles(&found), vec![2, 5]);
    for e in found {
        let subrole = e.subrole.as_deref().unwrap();
        assert!(
            subrole == "AXNotificationCenterAlert" || subrole == "AXNotificationCenterAlertStack"
        );
    }
}

#[test]
fn alert_with_children_is_collected_and_not_looked_into() {
    let inner = alert(9);
    let outer = element(
        1,
        Some("AXGroup"),
        Some("AXNotificationCenterAlertStack"),
        Some(vec![inner, group(10, vec![alert(11)])]),
    );
    let forest = vec![outer];
    assert_eq!(handles(&find_notification_alerts(&forest)), vec![1]);
}

#[test]
fn element_without_role_contributes_nothing() {
    let roleless_alert = element(1, None, Some("AXNotificationCenterAlert"), None);
    let roleless_parent = element(2, None, None, Some(vec![alert(3), group(4, vec![stack(5)])]));
    let forest = vec![roleless_alert, roleless_parent, alert(6)];
    assert_eq!(handles(&find_notification_alerts(&forest)), vec![6]);
}

#[test]
fn every_container_role_is_looked_into() {
    let forest = vec![
        element(1, Some("AXGroup"), None, Some(vec![alert(11)])),
        element(2, Some("AXScrollArea"), None, Some(vec![alert(12)])),
        element(3, Some("AXList"), None, Some(vec![alert(13)])),
        element(4, Some("AXSplitGroup"), None, Some(vec![alert(14)])),
    ];
    assert_eq!(handles(&find_notification_alerts(&forest)), vec![11, 12, 13, 14]);
}

#[test]
fn other_roles_are_pruned() {
    let forest = vec![
        element(1, Some("AXButton"), None, Some(vec![alert(11)])),
        element(2, Some("AXWindow"), None, Some(vec![alert(12)])),
        element(3, Some("axgroup"), None, Some(vec![alert(13)])),
        element(4, Some("AXGroups"), None, Some(vec![alert(14)])),
        element(5, Some(""), None, Some(vec![alert(15)])),
    ];
    assert!(find_notification_alerts(&forest).is_empty());
}

#[test]
fn container_without_children_contributes_nothing() {
    let forest = vec![
        element(1, Some("AXGroup"), None, None),
        element(2, Some("AXList"), None, Some(vec![])),
        alert(3),
    ];
    assert_eq!(handles(&find_notification_alerts(&forest)), vec![3]);
}

#[test]
fn other_subrole_on_a_container_does_not_stop_the_descent() {
    let forest =
        vec![element(1, Some("AXScrollArea"), Some("AXSomethingElse"), Some(vec![alert(2)]))];
    assert_eq!(handles(&find_notification_alerts(&forest)), vec![2]);
}

#[test]
fn notification_subrole_counts_whatever_the_role() {
    let forest = vec![element(1, Some("AXButton"), Some("AXNotificationCenterAlert"), None)];
    assert_eq!(handles(&find_notification_alerts(&forest)), vec![1]);
}

#[test]
fn near_miss_subroles_are_not_collected() {
    let forest = vec![
        element(1, Some("AXGroup"), Some("AXNotificationCenterAlerts"), None),
        element(2, Some("AXGroup"), Some("NotificationCenterAlert"), None),
        element(3, Some("AXGroup"), Some("AXNotificationCenterAlertStac"), None),
        element(4, Some("AXGroup"), Some(""), None),
    ];
    assert!(find_notification_alerts(&forest).is_empty());
}

#[test]
fn alerts_come_out_in_document_order() {
    let forest = vec![
        alert(1),
        group(2, vec![alert(3), group(4, vec![stack(5), alert(6)]), alert(7)]),
        element(8, Some("AXButton"), None, None),
        group(9, vec![group(10, vec![group(11, vec![alert(12)])])]),
        stack(13),
    ];
    assert_eq!(handles(&find_notification_alerts(&forest)), vec![1, 3, 5, 6, 7, 12, 13]);
}

#[test]
fn no_collected_element_lies_below_another() {
    let nested = element(
        1,
        Some("AXGroup"),
        Some("AXNotificationCenterAlertStack"),
        Some(vec![alert(2), alert(3)]),
    );
    let forest = vec![group(0, vec![nested, alert(4)])];
    let found = find_notification_alerts(&forest);
    assert_eq!(handles(&found), vec![1, 4]);
    let below_first: Vec<u64> =
        found[0].children.as_ref().unwrap().iter().map(|e| e.handle).collect();
    for e in &found {
        assert!(!below_first.contains(&e.handle));
    }
}
