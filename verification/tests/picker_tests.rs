use hop::picker::{
    display_text, display_texts_fit, list_row, rank_by_score, shorten_path, status_color, App, Color, Key, KeyCode, PickerAction,
};
use hop::session::{Instance, Status};

fn inst(pid: u32, cwd: &str, status: Status, name: Option<&str>) -> Instance {
    Instance {
        pid,
        session_id: String::new(),
        cwd: cwd.to_string(),
        status,
        name: name.map(|n| n.to_string()),
        started_at: 0,
    }
}

fn press(code: KeyCode) -> Key {
    Key { code, ctrl: false, press: true }
}

fn ctrl(c: char) -> Key {
    Key { code: KeyCode::Char(c), ctrl: true, press: true }
}

fn sample() -> Vec<Instance> {
    vec![
        inst(11, "/home/u/api-server", Status::Idle, None),
        inst(12, "/home/u/web", Status::Busy, None),
        inst(13, "/home/u/db", Status::Asking, Some("migration")),
    ]
}

fn typed(app: &mut App, s: &str) {
    for c in s.chars() {
        assert_eq!(app.handle_key(press(KeyCode::Char(c))), PickerAction::Continue);
    }
}

#[test]
fn ranking_orders_by_score_then_position() {
    let scores = vec![Some(5), None, Some(9), Some(5), None, Some(1)];
    assert_eq!(rank_by_score(&scores), vec![2, 0, 3, 5]);
    assert!(rank_by_score(&vec![None, None]).is_empty());
    assert!(rank_by_score(&vec![]).is_empty());
}

#[test]
fn display_text_is_name_and_directory() {
    let s = sample();
    assert_eq!(display_text(&s[0]), "api-server /home/u/api-server");
    assert_eq!(display_text(&s[2]), "migration /home/u/db");
}

#[test]
fn new_app_shows_everything() {
    let app = App::new(sample());
    assert_eq!(app.filtered, vec![0, 1, 2]);
    assert_eq!(app.selected, Some(0));
    assert_eq!(app.search, "");
    let empty = App::new(vec![]);
    assert!(empty.filtered.is_empty());
    assert_eq!(empty.selected, None);
}

#[test]
fn moving_stays_in_the_list() {
    let mut app = App::new(sample());
    app.handle_key(press(KeyCode::Up));
    assert_eq!(app.selected, Some(0));
    app.handle_key(press(KeyCode::Down));
    assert_eq!(app.selected, Some(1));
    app.handle_key(ctrl('j'));
    assert_eq!(app.selected, Some(2));
    app.handle_key(press(KeyCode::Down));
    assert_eq!(app.selected, Some(2));
    app.handle_key(ctrl('k'));
    assert_eq!(app.selected, Some(1));
    app.move_up();
    assert_eq!(app.selected, Some(0));
    app.move_down();
    app.move_up();
    assert_eq!(app.selected, Some(0));
    assert_eq!(app.search, "");
}

#[test]
fn typing_filters_the_list() {
    let mut app = App::new(sample());
    typed(&mut app, "api");
    assert_eq!(app.search, "api");
    assert_eq!(app.filtered, vec![0]);
    assert_eq!(app.selected, Some(0));
    typed(&mut app, "zzz");
    assert!(app.filtered.is_empty());
    assert_eq!(app.selected, None);
    assert_eq!(app.handle_key(press(KeyCode::Enter)), PickerAction::Close);
}

#[test]
fn search_matches_names_too() {
    let mut app = App::new(sample());
    typed(&mut app, "migr");
    assert_eq!(app.filtered, vec![2]);
    assert_eq!(app.handle_key(press(KeyCode::Enter)), PickerAction::Jump(13));
}

#[test]
fn backspace_undoes_a_typed_character() {
    let mut app = App::new(sample());
    typed(&mut app, "we");
    let filtered = app.filtered.clone();
    typed(&mut app, "q");
    assert_eq!(app.handle_key(press(KeyCode::Backspace)), PickerAction::Continue);
    assert_eq!(app.search, "we");
    assert_eq!(app.filtered, filtered);
    app.handle_key(press(KeyCode::Backspace));
    app.handle_key(press(KeyCode::Backspace));
    assert_eq!(app.search, "");
    assert_eq!(app.filtered, vec![0, 1, 2]);
    app.handle_key(press(KeyCode::Backspace));
    assert_eq!(app.search, "");
}

#[test]
fn plain_j_and_ctrl_other_letters_are_typed() {
    let mut app = App::new(sample());
    app.handle_key(press(KeyCode::Char('j')));
    assert_eq!(app.search, "j");
    app.handle_key(press(KeyCode::Backspace));
    app.handle_key(ctrl('a'));
    assert_eq!(app.search, "a");
}

#[test]
fn enter_jumps_to_selected_and_esc_closes() {
    let mut app = App::new(sample());
    app.handle_key(press(KeyCode::Down));
    assert_eq!(app.handle_key(press(KeyCode::Enter)), PickerAction::Jump(12));
    assert_eq!(app.handle_key(press(KeyCode::Esc)), PickerAction::Close);
    assert_eq!(app.handle_key(press(KeyCode::Other)), PickerAction::Continue);
    assert_eq!(app.selected, Some(1));
}

#[test]
fn releases_are_ignored() {
    let mut app = App::new(sample());
    let k = Key { code: KeyCode::Esc, ctrl: false, press: false };
    assert_eq!(app.handle_key(k), PickerAction::Continue);
    let k = Key { code: KeyCode::Char('x'), ctrl: false, press: false };
    app.handle_key(k);
    assert_eq!(app.search, "");
}

#[test]
fn refresh_keeps_the_selected_instance() {
    let mut app = App::new(sample());
    app.move_down();
    app.move_down();
    assert_eq!(app.selected_instance().map(|i| i.pid), Some(13));
    let mut again = sample();
    again.reverse();
    again.push(inst(14, "/home/u/new", Status::Idle, None));
    app.refresh(again);
    assert_eq!(app.filtered, vec![0, 1, 2, 3]);
    assert_eq!(app.selected, Some(0));
    assert_eq!(app.selected_instance().map(|i| i.pid), Some(13));
}

#[test]
fn refresh_without_the_selected_instance_selects_first() {
    let mut app = App::new(sample());
    app.move_down();
    app.refresh(vec![inst(20, "/x/a", Status::Idle, None), inst(21, "/x/b", Status::Idle, None)]);
    assert_eq!(app.selected, Some(0));
    app.refresh(vec![]);
    assert_eq!(app.selected, None);
    assert!(app.selected_instance().is_none());
}

#[test]
fn paths_under_home_are_shortened() {
    assert_eq!(shorten_path("/home/u/web", Some("/home/u")), "~/web");
    assert_eq!(shorten_path("/home/u", Some("/home/u")), "~");
    assert_eq!(shorten_path("/srv/web", Some("/home/u")), "/srv/web");
    assert_eq!(shorten_path("/srv/web", None), "/srv/web");
    assert_eq!(shorten_path("/srv/web", Some("")), "~/srv/web");
}

#[test]
fn rows_show_status_name_and_path() {
    let i = inst(11, "/home/u/api-server", Status::Idle, None);
    let row = list_row(&i, Some("/home/u"));
    assert_eq!(row.status, "[idle] ");
    assert_eq!(row.name, "api-server          ");
    assert_eq!(row.name.chars().count(), 20);
    assert_eq!(row.path, "~/api-server");
    assert_eq!(row.color, Color::Green);
    let long = inst(12, "/p/a-very-long-project-name-indeed", Status::Busy, None);
    assert_eq!(list_row(&long, None).name, "a-very-long-project-name-indeed");
}

#[test]
fn colors_of_each_status() {
    assert_eq!(status_color(&Status::Idle), Color::Green);
    assert_eq!(status_color(&Status::Busy), Color::Yellow);
    assert_eq!(status_color(&Status::Asking), Color::Cyan);
    assert_eq!(status_color(&Status::Waiting), Color::Magenta);
    assert_eq!(status_color(&Status::Unknown), Color::DarkGray);
}

#[test]
fn selection_past_the_end_selects_nothing() {
    let mut app = App::new(sample());
    app.selected = Some(7);
    assert!(app.selected_instance().is_none());
    app.selected = None;
    assert!(app.selected_instance().is_none());
    app.selected = Some(1);
    assert_eq!(app.selected_instance().map(|i| i.pid), Some(12));
}

#[test]
fn typing_more_narrows_the_list() {
    let mut app = App::new(sample());
    typed(&mut app, "e");
    let wider = app.filtered.clone();
    typed(&mut app, "b");
    assert!(app.filtered.iter().all(|i| wider.contains(i)));
    assert!(app.filtered.contains(&1));
    assert!(!app.filtered.contains(&0));
}

#[test]
fn ordinary_texts_fit_the_matcher() {
    assert!(display_texts_fit(&sample()));
    assert!(display_texts_fit(&vec![]));
}

#[test]
fn which_keys_run_the_matcher() {
    let mut app = App::new(sample());
    assert!(app.key_needs_matcher(press(KeyCode::Char('a'))));
    assert!(!app.key_needs_matcher(ctrl('j')));
    assert!(!app.key_needs_matcher(press(KeyCode::Backspace)));
    assert!(!app.key_needs_matcher(press(KeyCode::Esc)));
    typed(&mut app, "ab");
    assert!(app.key_needs_matcher(press(KeyCode::Backspace)));
    let release = Key { code: KeyCode::Char('a'), ctrl: false, press: false };
    assert!(!app.key_needs_matcher(release));
}
