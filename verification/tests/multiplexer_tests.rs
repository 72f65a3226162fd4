use std::collections::HashMap;

use hop::multiplexer::{
    current_pane_pid, detect, is_ancestor_of, parent_pid, parse_pid, pid_in_pane, tmux_panes, AncestorWalk, Multiplexer,
    WalkStep,
};

fn run_walk(mut w: AncestorWalk, parents: &HashMap<u32, u32>, lookups: &mut u32) -> bool {
    loop {
        match w.step() {
            WalkStep::Found => return true,
            WalkStep::NotFound => return false,
            WalkStep::NeedParent(p) => {
                *lookups += 1;
                w.give_parent(parents.get(&p).copied());
            }
        }
    }
}

#[test]
fn detect_prefers_tmux() {
    assert_eq!(detect(true, true), Multiplexer::Tmux);
    assert_eq!(detect(true, false), Multiplexer::Tmux);
    assert_eq!(detect(false, true), Multiplexer::Zellij);
    assert_eq!(detect(false, false), Multiplexer::Absent);
}

#[test]
fn pane_pid_comes_from_tmux_output() {
    assert_eq!(parse_pid("4242\n"), Some(4242));
    assert_eq!(parse_pid("  x\n"), None);
    assert_eq!(current_pane_pid(&Multiplexer::Tmux, Some("81723\n")), Some(81723));
    assert_eq!(current_pane_pid(&Multiplexer::Tmux, Some("")), None);
    assert_eq!(current_pane_pid(&Multiplexer::Tmux, None), None);
    assert_eq!(current_pane_pid(&Multiplexer::Zellij, Some("81723\n")), None);
    assert_eq!(current_pane_pid(&Multiplexer::Absent, Some("81723")), None);
}

#[test]
fn parent_pid_is_the_fourth_stat_field() {
    assert_eq!(parent_pid("35667 (node) S 35600 35667 35600 34816 35667 4194304"), Some(35600));
    assert_eq!(parent_pid("1 (init) S 0 1 1"), Some(0));
    assert_eq!(parent_pid("12 (a b) S 5 12"), None);
    assert_eq!(parent_pid("12 (x) S"), None);
    assert_eq!(parent_pid(""), None);
}

#[test]
fn walk_finds_an_ancestor() {
    let parents: HashMap<u32, u32> = [(500, 400), (400, 300), (300, 1)].into_iter().collect();
    let mut n = 0;
    assert!(run_walk(pid_in_pane(300, 500), &parents, &mut n));
    assert_eq!(n, 2);
    let mut n = 0;
    assert!(run_walk(is_ancestor_of(500, 500), &parents, &mut n));
    assert_eq!(n, 0);
    let mut n = 0;
    assert!(!run_walk(is_ancestor_of(999, 500), &parents, &mut n));
    assert_eq!(n, 3);
}

#[test]
fn walk_stops_at_dead_ends() {
    let parents: HashMap<u32, u32> = [(20, 20), (30, 7)].into_iter().collect();
    let mut n = 0;
    assert!(!run_walk(is_ancestor_of(5, 20), &parents, &mut n));
    assert_eq!(n, 1);
    let mut n = 0;
    assert!(!run_walk(is_ancestor_of(5, 30), &parents, &mut n));
    assert_eq!(n, 2);
    let mut n = 0;
    assert!(!run_walk(is_ancestor_of(5, 1), &parents, &mut n));
    assert_eq!(n, 0);
    let mut n = 0;
    assert!(run_walk(is_ancestor_of(1, 1), &parents, &mut n));
}

#[test]
fn walk_looks_up_at_most_thirty_parents() {
    // a chain 100 -> 101 -> ... where pid k has parent k + 1
    let parents: HashMap<u32, u32> = (100..200).map(|k| (k, k + 1)).collect();
    let mut n = 0;
    assert!(run_walk(is_ancestor_of(129, 100), &parents, &mut n));
    assert_eq!(n, 29);
    let mut n = 0;
    assert!(!run_walk(is_ancestor_of(130, 100), &parents, &mut n));
    assert_eq!(n, 30);
}

#[test]
fn tmux_listing_is_parsed() {
    let listing = "1234 main:0.0\n5678 work:1.2\nbad line\n99x other:0.0\n42 with space:1.0\r\n\n";
    let panes = tmux_panes(listing);
    let got: Vec<(u32, String)> = panes.into_iter().map(|p| (p.pane_pid, p.target)).collect();
    assert_eq!(
        got,
        vec![
            (1234, "main:0.0".to_string()),
            (5678, "work:1.2".to_string()),
            (42, "with space:1.0".to_string()),
        ]
    );
    assert!(tmux_panes("").is_empty());
}
