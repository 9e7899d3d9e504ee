use notification_closer::closer::{
    close_batch_groups, close_requests, find_close_action, find_dismiss_action, CloseRequest,
};
use notification_closer::element::AccessibilityElement;
use notification_closer::tally::count_closed;
use std::cell::RefCell;

fn group(handle: u64, actions: Option<Vec<&str>>) -> AccessibilityElement {
    AccessibilityElement {
        handle,
        role: Some("AXGroup".to_string()),
        subrole: Some("AXNotificationCenterAlert".to_string()),
        windows: None,
        children: None,
        actions: actions.map(|a| a.iter().map(|s| s.to_string()).collect()),
    }
}

fn texts(actions: &[&str]) -> Vec<String> {
    actions.iter().map(|s| s.to_string()).collect()
}

#[test]
fn no_groups_close_nothing() {
    let none: Vec<&AccessibilityElement> = Vec::new();
    assert_eq!(close_batch_groups(&none, |_, _| true), 0);
    assert_eq!(close_requests(&none), Vec::<CloseRequest>::new());
}

#[test]
fn every_group_with_a_close_action_is_closed() {
    let owned: Vec<AccessibilityElement> = (0..5)
        .map(|h| group(h, Some(vec!["Name:Show Details\nTarget:0x0", "Name:Close\nTarget:0x0"])))
        .collect();
    let groups: Vec<&AccessibilityElement> = owned.iter().collect();
    assert_eq!(close_batch_groups(&groups, |_, _| true), 5);
}

#[test]
fn group_without_a_close_action_adds_nothing_and_stops_nothing() {
    let owned = vec![
        group(1, Some(vec!["Name:Close"])),
        group(2, Some(vec!["Name:Show Details", "AXPress"])),
        group(3, Some(vec!["Name:Clear All"])),
        group(4, Some(vec![])),
        group(5, Some(vec!["Name:Close"])),
    ];
    let groups: Vec<&AccessibilityElement> = owned.iter().collect();
    let performed = RefCell::new(Vec::new());
    let closed = close_batch_groups(&groups, |g, _| {
        performed.borrow_mut().push(g.handle);
        true
    });
    assert_eq!(closed, 3);
    assert_eq!(performed.into_inner(), vec![5, 3, 1]);
}

#[test]
fn group_without_actions_is_passed_over() {
    let owned = vec![group(1, None), group(2, Some(vec!["Name:Close"])), group(3, None)];
    let groups: Vec<&AccessibilityElement> = owned.iter().collect();
    let performed = RefCell::new(Vec::new());
    let closed = close_batch_groups(&groups, |g, _| {
        performed.borrow_mut().push(g.handle);
        true
    });
    assert_eq!(closed, 1);
    assert_eq!(performed.into_inner(), vec![2]);
}

#[test]
fn groups_are_visited_last_discovered_first() {
    let owned: Vec<AccessibilityElement> =
        (10..14).map(|h| group(h, Some(vec!["Name:Close"]))).collect();
    let groups: Vec<&AccessibilityElement> = owned.iter().collect();
    let performed = RefCell::new(Vec::new());
    close_batch_groups(&groups, |g, _| {
        performed.borrow_mut().push(g.handle);
        true
    });
    assert_eq!(performed.into_inner(), vec![13, 12, 11, 10]);
}

#[test]
fn failed_action_is_not_counted_and_not_retried() {
    let owned = vec![
        group(1, Some(vec!["Name:Close", "Name:Clear All"])),
        group(2, Some(vec!["Name:Clear All", "Name:Close"])),
        group(3, Some(vec!["Name:Close"])),
    ];
    let groups: Vec<&AccessibilityElement> = owned.iter().collect();
    let performed = RefCell::new(Vec::new());
    let closed = close_batch_groups(&groups, |g, action| {
        performed.borrow_mut().push((g.handle, action.clone()));
        g.handle == 3
    });
    assert_eq!(closed, 1);
    assert_eq!(
        performed.into_inner(),
        vec![
            (3, "Name:Close".to_string()),
            (2, "Name:Clear All".to_string()),
            (1, "Name:Close".to_string()),
        ]
    );
}

#[test]
fn all_actions_failing_closes_nothing() {
    let owned: Vec<AccessibilityElement> =
        (0..3).map(|h| group(h, Some(vec!["Name:Close"]))).collect();
    let groups: Vec<&AccessibilityElement> = owned.iter().collect();
    assert_eq!(close_batch_groups(&groups, |_, _| false), 0);
}

#[test]
fn the_first_matching_descriptor_is_performed() {
    let owned = vec![group(
        1,
        Some(vec!["AXPress", "Name:Show", "Name:Clear All\nTarget:0x1", "Name:Close\nTarget:0x2"]),
    )];
    let groups: Vec<&AccessibilityElement> = owned.iter().collect();
    let performed = RefCell::new(Vec::new());
    close_batch_groups(&groups, |_, action| {
        performed.borrow_mut().push(action.clone());
        true
    });
    assert_eq!(performed.into_inner(), vec!["Name:Clear All\nTarget:0x1".to_string()]);
}

#[test]
fn find_close_action_gives_the_first_match() {
    assert_eq!(find_close_action(&texts(&[])), None);
    assert_eq!(find_close_action(&texts(&["AXPress", "Name:Show"])), None);
    assert_eq!(find_close_action(&texts(&["Name:Close"])), Some(0));
    assert_eq!(find_close_action(&texts(&["AXPress", "Name:Close", "Name:Clear All"])), Some(1));
    assert_eq!(find_close_action(&texts(&["a", "b", "c", "x Name:Clear All y"])), Some(3));
}

#[test]
fn find_dismiss_action_reads_the_groups_actions() {
    assert_eq!(find_dismiss_action(&group(1, None)), None);
    assert_eq!(find_dismiss_action(&group(1, Some(vec![]))), None);
    assert_eq!(find_dismiss_action(&group(1, Some(vec!["AXPress"]))), None);
    assert_eq!(find_dismiss_action(&group(1, Some(vec!["AXPress", "Name:Close"]))), Some(1));
}

#[test]
fn requests_list_closable_groups_last_first() {
    let owned = vec![
        group(1, Some(vec!["AXPress", "Name:Close"])),
        group(2, None),
        group(3, Some(vec!["Name:Clear All", "Name:Close"])),
        group(4, Some(vec!["AXPress"])),
        group(5, Some(vec!["a", "b", "Name:Close"])),
    ];
    let groups: Vec<&AccessibilityElement> = owned.iter().collect();
    assert_eq!(
        close_requests(&groups),
        vec![
            CloseRequest { group: 4, action: 2 },
            CloseRequest { group: 2, action: 0 },
            CloseRequest { group: 0, action: 1 },
        ]
    );
}

#[test]
fn count_closed_counts_the_successes() {
    assert_eq!(count_closed(&[]), 0);
    assert_eq!(count_closed(&[false]), 0);
    assert_eq!(count_closed(&[true]), 1);
    assert_eq!(count_closed(&[true, false, true, true, false]), 3);
    assert_eq!(count_closed(&[false, false, false]), 0);
    assert_eq!(count_closed(&[true, true, true, true]), 4);
}

#[test]
fn both_modes_give_the_same_count() {
    let owned = vec![
        group(1, Some(vec!["Name:Close"])),
        group(2, Some(vec!["AXPress"])),
        group(3, Some(vec!["Name:Clear All"])),
        group(4, None),
        group(5, Some(vec!["Name:Close"])),
        group(6, Some(vec!["Name:Close"])),
    ];
    let groups: Vec<&AccessibilityElement> = owned.iter().collect();
    let succeeds = |g: &AccessibilityElement, _: &String| g.handle != 5;
    let one_by_one = close_batch_groups(&groups, succeeds);

    let requests = close_requests(&groups);
    let arrival: Vec<usize> = vec![2, 0, 3, 1];
    assert_eq!(requests.len(), arrival.len());
    let reports: Vec<bool> = arrival
        .iter()
        .map(|&k| {
            let request = requests[k];
            let group = groups[request.group];
            succeeds(group, &group.actions.as_ref().unwrap()[request.action])
        })
        .collect();
    let fanned_out = count_closed(&reports);

    assert_eq!(one_by_one, 3);
    assert_eq!(fanned_out, one_by_one);
}
