use hop::session::{discover, instance_from, jump_target, parse_status, shown_name_of, Instance, SessionFile, Status};

fn file(pid: u32, cwd: &str, status: Option<&str>, started_at: Option<u64>) -> SessionFile {
    SessionFile {
        pid,
        session_id: format!("s-{}", pid),
        cwd: cwd.to_string(),
        status: status.map(|s| s.to_string()),
        name: None,
        started_at,
    }
}

fn inst(pid: u32, status: Status, started_at: u64) -> Instance {
    Instance {
        pid,
        session_id: format!("s-{}", pid),
        cwd: format!("/p/{}", pid),
        status,
        name: None,
        started_at,
    }
}

#[test]
fn labels_of_each_status() {
    assert_eq!(Status::Busy.label(), "[busy]");
    assert_eq!(Status::Idle.label(), "[idle]");
    assert_eq!(Status::Asking.label(), "[ask]");
    assert_eq!(Status::Waiting.label(), "[wait]");
    assert_eq!(Status::Unknown.label(), "[??]");
}

#[test]
fn status_names_are_parsed() {
    assert_eq!(parse_status(&Some("busy".to_string())), Status::Busy);
    assert_eq!(parse_status(&Some("idle".to_string())), Status::Idle);
    assert_eq!(parse_status(&Some("asking".to_string())), Status::Asking);
    assert_eq!(parse_status(&Some("waiting".to_string())), Status::Waiting);
    assert_eq!(parse_status(&Some("Idle".to_string())), Status::Unknown);
    assert_eq!(parse_status(&Some("".to_string())), Status::Unknown);
    assert_eq!(parse_status(&None), Status::Unknown);
}

#[test]
fn session_file_becomes_instance() {
    let i = instance_from(file(35667, "/Users/j/Projects/ai", Some("busy"), Some(1779583418000)));
    assert_eq!(i.pid, 35667);
    assert_eq!(i.session_id, "s-35667");
    assert_eq!(i.cwd, "/Users/j/Projects/ai");
    assert_eq!(i.status, Status::Busy);
    assert_eq!(i.name, None);
    assert_eq!(i.started_at, 1779583418000);
    let j = instance_from(file(1, "/x", None, None));
    assert_eq!(j.status, Status::Unknown);
    assert_eq!(j.started_at, 0);
}

#[test]
fn discover_puts_idle_first_then_newest() {
    let files = vec![
        file(1, "/a", Some("busy"), Some(50)),
        file(2, "/b", Some("idle"), Some(10)),
        file(3, "/c", Some("asking"), Some(70)),
        file(4, "/d", Some("idle"), Some(30)),
        file(5, "/e", None, None),
        file(6, "/f", Some("idle"), Some(30)),
    ];
    let r = discover(files);
    let pids: Vec<u32> = r.iter().map(|i| i.pid).collect();
    assert_eq!(pids, vec![4, 6, 2, 3, 1, 5]);
}

#[test]
fn discover_of_nothing_is_empty() {
    assert!(discover(vec![]).is_empty());
}

#[test]
fn discover_keeps_equal_files_in_order() {
    let files = vec![file(9, "/a", Some("busy"), Some(5)), file(8, "/b", Some("waiting"), Some(5)), file(7, "/c", Some("busy"), Some(5))];
    let pids: Vec<u32> = discover(files).iter().map(|i| i.pid).collect();
    assert_eq!(pids, vec![9, 8, 7]);
}

#[test]
fn shown_name_prefers_the_name() {
    let mut i = inst(1, Status::Idle, 0);
    i.cwd = "/Users/j/Projects/web".to_string();
    assert_eq!(shown_name_of(&i), "web");
    i.name = Some("refactor".to_string());
    assert_eq!(shown_name_of(&i), "refactor");
}

#[test]
fn jump_goes_to_first_idle_outside_the_pane() {
    let list = vec![inst(10, Status::Idle, 90), inst(11, Status::Idle, 80), inst(12, Status::Busy, 99)];
    assert_eq!(jump_target(&list, &vec![false, false, false]), Some(10));
    assert_eq!(jump_target(&list, &vec![true, false, false]), Some(11));
    assert_eq!(jump_target(&list, &vec![true, true, false]), None);
    assert_eq!(jump_target(&vec![], &vec![]), None);
}

#[test]
fn jump_after_discover_picks_latest_idle() {
    let files = vec![
        file(1, "/a", Some("idle"), Some(10)),
        file(2, "/b", Some("busy"), Some(100)),
        file(3, "/c", Some("idle"), Some(40)),
        file(4, "/d", Some("idle"), Some(20)),
    ];
    let list = discover(files);
    let in_pane = vec![false; list.len()];
    assert_eq!(jump_target(&list, &in_pane), Some(3));
    let in_pane: Vec<bool> = list.iter().map(|i| i.pid == 3).collect();
    assert_eq!(jump_target(&list, &in_pane), Some(4));
}
