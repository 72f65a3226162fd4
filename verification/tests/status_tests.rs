use hop::session::{Instance, Status};
use hop::status::status_line;

fn inst(pid: u32, cwd: &str, status: Status, name: Option<&str>) -> Instance {
    Instance {
        pid,
        session_id: String::new(),
        cwd: cwd.to_string(),
        status,
        name: name.map(|n| n.to_string()),
        started_at: 0,
    }
}

#[test]
fn nothing_ready_prints_nothing() {
    let list = vec![inst(1, "/a/x", Status::Busy, None), inst(2, "/a/y", Status::Unknown, None)];
    assert_eq!(status_line(&list, &vec![false, false]), "");
    assert_eq!(status_line(&vec![], &vec![]), "");
}

#[test]
fn one_ready_shows_its_name() {
    let list = vec![inst(1, "/a/my-project", Status::Idle, None), inst(2, "/a/y", Status::Busy, None)];
    assert_eq!(status_line(&list, &vec![false, false]), "\u{23ce} my-project");
    let list = vec![inst(1, "/a/my-project", Status::Waiting, Some("named"))];
    assert_eq!(status_line(&list, &vec![false]), "\u{23ce} named");
}

#[test]
fn several_ready_shows_count() {
    let list = vec![
        inst(1, "/a/p", Status::Idle, None),
        inst(2, "/a/q", Status::Asking, None),
        inst(3, "/a/r", Status::Waiting, None),
        inst(4, "/a/s", Status::Busy, None),
    ];
    assert_eq!(status_line(&list, &vec![false; 4]), "\u{23ce} 3 ready");
}

#[test]
fn instance_in_current_pane_is_not_counted() {
    let list = vec![inst(1, "/a/p", Status::Idle, None), inst(2, "/a/q", Status::Asking, None)];
    assert_eq!(status_line(&list, &vec![true, false]), "\u{23ce} q");
    assert_eq!(status_line(&list, &vec![true, true]), "");
}
