use hop::event::{handle, is_focused_pane, notify_if_not_focused, HookInput};

#[test]
fn only_idle_and_asking_notify() {
    assert!(handle("idle"));
    assert!(handle("asking"));
    assert!(!handle("start"));
    assert!(!handle("end"));
    assert!(handle("permission"));
    assert!(!handle(""));
}

#[test]
fn idle_notification_names_the_project() {
    let input = HookInput { cwd: Some("/Users/j/Projects/api".to_string()) };
    let n = notify_if_not_focused("idle", &input, false).unwrap();
    assert_eq!(n.title, "Hop");
    assert_eq!(n.body, "api is ready");
}

#[test]
fn asking_notification_asks_for_input() {
    let input = HookInput { cwd: Some("/srv/db-migration".to_string()) };
    let n = notify_if_not_focused("asking", &input, false).unwrap();
    assert_eq!(n.body, "db-migration needs your input");
}

#[test]
fn notification_without_directory() {
    let n = notify_if_not_focused("idle", &HookInput { cwd: None }, false).unwrap();
    assert_eq!(n.body, "Agent is ready");
    let n = notify_if_not_focused("idle", &HookInput { cwd: Some("/x/".to_string()) }, false).unwrap();
    assert_eq!(n.body, " is ready");
}

#[test]
fn focused_pane_gets_no_notification() {
    let input = HookInput { cwd: Some("/a/b".to_string()) };
    assert!(notify_if_not_focused("idle", &input, true).is_none());
    assert!(notify_if_not_focused("asking", &input, true).is_none());
}

#[test]
fn focus_is_the_trimmed_active_pane() {
    assert!(is_focused_pane(true, Some("%3"), Some("%3\n")));
    assert!(!is_focused_pane(true, Some("%3"), Some("%4\n")));
    assert!(!is_focused_pane(false, Some("%3"), Some("%3")));
    assert!(!is_focused_pane(true, None, Some("%3")));
    assert!(!is_focused_pane(true, Some("%3"), None));
}

#[test]
fn permission_notification_reads_ready() {
    let input = HookInput { cwd: Some("/srv/web".to_string()) };
    let n = notify_if_not_focused("permission", &input, false).unwrap();
    assert_eq!(n.body, "web is ready");
}
