//! The terminal multiplexer: which one runs, which pane is current, and
//! whether a process runs inside a pane (by walking up its parents).
use vstd::prelude::*;

use crate::text::{
    chars_of, lines, lines_of, parse_u32, parse_u32_chars, parse_u32_spec, split_at_first_space,
    split_first_space, trim, trimmed, views, words, words_of,
};

verus! {

/// The terminal multiplexer that the program runs under.
#[derive(Debug, Clone, Copy, PartialEq, Eq, Structural)]
pub enum Multiplexer {
    Tmux,
    Zellij,
    Absent,
}

/// The multiplexer, from whether `TMUX` and `ZELLIJ` are set in the
/// environment; tmux wins when both are.
pub fn detect(tmux_set: bool, zellij_set: bool) -> (m: Multiplexer)
    ensures
        tmux_set ==> m == Multiplexer::Tmux,
        !tmux_set && zellij_set ==> m == Multiplexer::Zellij,
        !tmux_set && !zellij_set ==> m == Multiplexer::Absent,
{
    if tmux_set {
        Multiplexer::Tmux
    } else if zellij_set {
        Multiplexer::Zellij
    } else {
        Multiplexer::Absent
    }
}

/// A process id written as text, surrounded by whitespace or not.
pub open spec fn pid_in_text(text: Seq<char>) -> Option<u32> {
    parse_u32_spec(trimmed(text))
}

/// Reads a process id from command output: the trimmed text parsed as a
/// `u32`.
pub fn parse_pid(text: &str) -> (r: Option<u32>)
    ensures
        r == pid_in_text(text@),
{
    let t = trim(text);
    parse_u32(t.as_str())
}

/// The process id of the current pane. Under tmux it is read from the
/// output of `tmux display-message -p '#{pane_pid}'` (`None` when the command
/// could not run); other multiplexers give none.
pub fn current_pane_pid(mux: &Multiplexer, tmux_output: Option<&str>) -> (r: Option<u32>)
    ensures
        *mux != Multiplexer::Tmux ==> r is None,
        *mux == Multiplexer::Tmux ==> r == match tmux_output {
            Some(out) => pid_in_text(out@),
            None => None,
        },
{
    match mux {
        Multiplexer::Tmux => match tmux_output {
            Some(out) => parse_pid(out),
            None => None,
        },
        _ => None,
    }
}

/// The parent process id recorded in the contents of `/proc/<pid>/stat`:
/// its fourth whitespace-separated field, parsed as a `u32`.
pub open spec fn parent_in_stat(stat: Seq<char>) -> Option<u32> {
    let w = words(stat);
    if w.len() > 3 {
        parse_u32_spec(w[3])
    } else {
        None
    }
}

/// The parent process id that the contents of `/proc/<pid>/stat` record.
pub fn parent_pid(stat: &str) -> (r: Option<u32>)
    ensures
        r == parent_in_stat(stat@),
{
    let cs = chars_of(stat);
    let w = words_of(&cs);
    if w.len() > 3 {
        assert(views(w@)[3] == w@[3]@);
        parse_u32_chars(&w[3])
    } else {
        None
    }
}

/// A process id in command output is the trimmed output read as a number,
/// and the parent in a `stat` file is its fourth field read as a number.
pub proof fn pid_reading_law(text: Seq<char>)
    ensures
        pid_in_text(text) == parse_u32_spec(trimmed(text)),
        words(text).len() > 3 ==> parent_in_stat(text) == parse_u32_spec(words(text)[3]),
        words(text).len() <= 3 ==> parent_in_stat(text) is None,
{
}

// ---------------------------------------------------------------------------
// Walking up the process tree
// ---------------------------------------------------------------------------

/// At most this many parents are looked up when walking up the tree.
pub const MAX_WALK: u32 = 30;

/// A walk up the process tree from a process towards a possible ancestor.
/// `current` is the process reached so far, or `None` once the walk has hit
/// a process without a usable parent; `steps` counts the parents looked up.
#[derive(Debug, Clone, Copy, PartialEq, Eq, Structural)]
pub struct AncestorWalk {
    pub ancestor: u32,
    pub current: Option<u32>,
    pub steps: u32,
}

/// What a walk needs next, or how it ended.
#[derive(Debug, Clone, Copy, PartialEq, Eq, Structural)]
pub enum WalkStep {
    /// The ancestor was reached.
    Found,
    /// The walk ended without reaching the ancestor.
    NotFound,
    /// The parent of this process is needed to go on.
    NeedParent(u32),
}

impl AncestorWalk {
    /// The walk's next step.
    pub open spec fn next_step(self) -> WalkStep {
        match self.current {
            None => WalkStep::NotFound,
            Some(pid) => if self.steps >= MAX_WALK {
                WalkStep::NotFound
            } else if pid == self.ancestor {
                WalkStep::Found
            } else if pid <= 1 {
                WalkStep::NotFound
            } else {
                WalkStep::NeedParent(pid)
            },
        }
    }

    /// The walk after the parent of its current process has been looked up
    /// (`None` when it could not be): it moves to the parent, unless there is
    /// none or the process is its own parent.
    pub open spec fn after_parent(self, parent: Option<u32>) -> AncestorWalk {
        match self.current {
            None => self,
            Some(pid) => match parent {
                Some(pp) => if pp != pid {
                    AncestorWalk { ancestor: self.ancestor, current: Some(pp), steps: (self.steps + 1) as u32 }
                } else {
                    AncestorWalk { ancestor: self.ancestor, current: None, steps: self.steps }
                },
                None => AncestorWalk { ancestor: self.ancestor, current: None, steps: self.steps },
            },
        }
    }

    /// The walk's next step: whether it is over, and how, or which parent it
    /// needs.
    pub fn step(&self) -> (r: WalkStep)
        ensures
            r == self.next_step(),
    {
        match self.current {
            None => WalkStep::NotFound,
            Some(pid) => if self.steps >= MAX_WALK {
                WalkStep::NotFound
            } else if pid == self.ancestor {
                WalkStep::Found
            } else if pid <= 1 {
                WalkStep::NotFound
            } else {
                WalkStep::NeedParent(pid)
            },
        }
    }

    /// Hands the walk the parent it asked for.
    pub fn give_parent(&mut self, parent: Option<u32>)
        requires
            old(self).next_step() is NeedParent,
        ensures
            *final(self) == old(self).after_parent(parent),
    {
        let pid = self.current.unwrap();
        match parent {
            Some(pp) => {
                if pp != pid {
                    self.current = Some(pp);
                    self.steps = self.steps + 1;
                } else {
                    self.current = None;
                }
            },
            None => {
                self.current = None;
            },
        }
    }
}

/// Begins the walk that decides whether `ancestor` is `pid` itself or one of
/// its ancestors, looking up at most `MAX_WALK` parents.
pub fn is_ancestor_of(ancestor: u32, pid: u32) -> (w: AncestorWalk)
    ensures
        w == (AncestorWalk { ancestor, current: Some(pid), steps: 0 }),
{
    AncestorWalk { ancestor, current: Some(pid), steps: 0 }
}

/// Begins the walk that decides whether process `target_pid` runs in the
/// pane whose shell is `pane_pid`.
pub fn pid_in_pane(pane_pid: u32, target_pid: u32) -> (w: AncestorWalk)
    ensures
        w == (AncestorWalk { ancestor: pane_pid, current: Some(target_pid), steps: 0 }),
{
    is_ancestor_of(pane_pid, target_pid)
}

/// `ancestor` is reached from `pid` by following `parent` at most `fuel - 1`
/// times, never through process 0 or 1 and never through a process that is
/// its own parent.
pub open spec fn reaches(parent: spec_fn(u32) -> Option<u32>, ancestor: u32, pid: u32, fuel: nat) -> bool
    decreases fuel,
{
    if fuel == 0 {
        false
    } else if pid == ancestor {
        true
    } else if pid <= 1 {
        false
    } else {
        match parent(pid) {
            Some(pp) => pp != pid && reaches(parent, ancestor, pp, (fuel - 1) as nat),
            None => false,
        }
    }
}

/// Where a walk stands after being given, at most `n` times, the parent it
/// asks for according to `parent`.
pub open spec fn drive(w: AncestorWalk, parent: spec_fn(u32) -> Option<u32>, n: nat) -> WalkStep
    decreases n,
{
    match w.next_step() {
        WalkStep::NeedParent(q) => if n == 0 {
            WalkStep::NeedParent(q)
        } else {
            drive(w.after_parent(parent(q)), parent, (n - 1) as nat)
        },
        other => other,
    }
}

proof fn lemma_drive(w: AncestorWalk, parent: spec_fn(u32) -> Option<u32>, pid: u32, fuel: nat)
    requires
        w.current == Some(pid),
        w.steps + fuel == MAX_WALK,
    ensures
        drive(w, parent, fuel) == if reaches(parent, w.ancestor, pid, fuel) {
            WalkStep::Found
        } else {
            WalkStep::NotFound
        },
    decreases fuel,
{
    if fuel > 0 && pid != w.ancestor && pid > 1 {
        match parent(pid) {
            Some(pp) => {
                if pp != pid {
                    lemma_drive(w.after_parent(parent(pid)), parent, pp, (fuel - 1) as nat);
                }
            },
            None => {},
        }
    }
}

/// What reaching an ancestor means, step by step: a process reaches
/// itself; a process that is not the ancestor, not process 0 or 1, and has
/// a parent other than itself reaches whatever its parent reaches with one
/// step less; any other process that is not the ancestor reaches nothing.
/// The walk looks up at most 30 parents.
pub proof fn reaching_law(parent: spec_fn(u32) -> Option<u32>, ancestor: u32, pid: u32, fuel: nat)
    ensures
        MAX_WALK == 30,
        reaches(parent, ancestor, ancestor, fuel + 1),
        !reaches(parent, ancestor, pid, 0),
        (pid != ancestor && pid > 1 && parent(pid) is Some && parent(pid)->0 != pid) ==> reaches(
            parent,
            ancestor,
            pid,
            fuel + 1,
        ) == reaches(parent, ancestor, parent(pid)->0, fuel),
        (pid != ancestor && (pid <= 1 || parent(pid) is None || parent(pid) == Some(pid))) ==> !reaches(
            parent,
            ancestor,
            pid,
            fuel,
        ),
{
}

/// A walk answers whether the ancestor is reached: driven with the parents
/// that `parent` gives, the walk begun by `is_ancestor_of` ends within
/// `MAX_WALK` parent lookups, and it ends in `Found` exactly when `ancestor`
/// is `pid` or is reached from it by following parents.
pub proof fn walk_decides_ancestry(parent: spec_fn(u32) -> Option<u32>, ancestor: u32, pid: u32)
    ensures
        drive(
            AncestorWalk { ancestor, current: Some(pid), steps: 0 },
            parent,
            MAX_WALK as nat,
        ) == if reaches(parent, ancestor, pid, MAX_WALK as nat) {
            WalkStep::Found
        } else {
            WalkStep::NotFound
        },
{
    lemma_drive(AncestorWalk { ancestor, current: Some(pid), steps: 0 }, parent, pid, MAX_WALK as nat);
}

// ---------------------------------------------------------------------------
// tmux panes
// ---------------------------------------------------------------------------

/// One pane of `tmux list-panes -F '#{pane_pid} <target>'`.
#[derive(Debug)]
pub struct PaneEntry {
    pub pane_pid: u32,
    pub target: String,
}

/// The pane that one line of the listing describes: the process id before
/// the first space and the target after it; `None` when the line has no
/// space or the id does not parse.
pub open spec fn pane_line(l: Seq<char>) -> Option<(u32, Seq<char>)> {
    let (a, b) = split_first_space(l);
    match b {
        Some(t) => match parse_u32_spec(a) {
            Some(pid) => Some((pid, t)),
            None => None,
        },
        None => None,
    }
}

/// The panes that the lines describe, lines that describe none left out.
pub open spec fn panes_in(ls: Seq<Seq<char>>) -> Seq<(u32, Seq<char>)>
    decreases ls.len(),
{
    if ls.len() == 0 {
        Seq::empty()
    } else {
        let prev = panes_in(ls.drop_last());
        match pane_line(ls.last()) {
            Some(e) => prev.push(e),
            None => prev,
        }
    }
}

/// Every line of a listing that is a process id, a space and a target
/// gives that pane, and every pane comes from such a line: a pane in the
/// listing is never lost, and none is made up.
pub proof fn listed_panes_are_found(ls: Seq<Seq<char>>)
    ensures
        forall|j: int|
            #![trigger ls[j]]
            0 <= j < ls.len() && split_first_space(ls[j]).1 is Some && parse_u32_spec(
                split_first_space(ls[j]).0,
            ) is Some ==> panes_in(ls).contains(
                (parse_u32_spec(split_first_space(ls[j]).0)->0, split_first_space(ls[j]).1->0),
            ),
        forall|k: int|
            0 <= k < panes_in(ls).len() ==> exists|j: int|
                #![trigger ls[j]]
                0 <= j < ls.len() && split_first_space(ls[j]).1 == Some(
                    (#[trigger] panes_in(ls)[k]).1,
                ) && parse_u32_spec(split_first_space(ls[j]).0) == Some(panes_in(ls)[k].0),
        panes_in(ls).len() <= ls.len(),
    decreases ls.len(),
{
    if ls.len() > 0 {
        let prev = ls.drop_last();
        listed_panes_are_found(prev);
        let l = ls.last();
        assert forall|j: int|
            #![trigger ls[j]]
            0 <= j < ls.len() && split_first_space(ls[j]).1 is Some && parse_u32_spec(
                split_first_space(ls[j]).0,
            ) is Some implies panes_in(ls).contains(
            (parse_u32_spec(split_first_space(ls[j]).0)->0, split_first_space(ls[j]).1->0),
        ) by {
            let e = (parse_u32_spec(split_first_space(ls[j]).0)->0, split_first_space(ls[j]).1->0);
            if j == ls.len() - 1 {
                assert(pane_line(l) == Some(e));
                assert(panes_in(ls) == panes_in(prev).push(e));
                assert(panes_in(ls)[panes_in(ls).len() - 1] == e);
            } else {
                assert(prev[j] == ls[j]);
                assert(panes_in(prev).contains(e));
                let w = choose|w: int| 0 <= w < panes_in(prev).len() && panes_in(prev)[w] == e;
                assert(panes_in(ls)[w] == e);
            }
        }
        assert forall|k: int| 0 <= k < panes_in(ls).len() implies exists|j: int|
            #![trigger ls[j]]
            0 <= j < ls.len() && split_first_space(ls[j]).1 == Some(
                (#[trigger] panes_in(ls)[k]).1,
            ) && parse_u32_spec(split_first_space(ls[j]).0) == Some(panes_in(ls)[k].0) by {
            if k < panes_in(prev).len() {
                assert(panes_in(ls)[k] == panes_in(prev)[k]);
                let j = choose|j: int|
                    #![trigger prev[j]]
                    0 <= j < prev.len() && split_first_space(prev[j]).1 == Some(panes_in(prev)[k].1)
                        && parse_u32_spec(split_first_space(prev[j]).0) == Some(panes_in(prev)[k].0);
                assert(ls[j] == prev[j]);
            } else {
                assert(ls[ls.len() - 1] == l);
            }
        }
    }
}

/// The panes of a `tmux list-panes` listing, in order.
pub fn tmux_panes(listing: &str) -> (r: Vec<PaneEntry>)
    ensures
        r@.len() == panes_in(lines(listing@)).len(),
        forall|k: int|
            0 <= k < r@.len() ==> (#[trigger] r@[k]).pane_pid == panes_in(lines(listing@))[k].0
                && r@[k].target@ == panes_in(lines(listing@))[k].1,
{
    let cs = chars_of(listing);
    let ls = lines_of(&cs);
    let ghost lv = views(ls@);
    let mut r: Vec<PaneEntry> = Vec::new();
    let mut i: usize = 0;
    assert(lv.take(0) =~= Seq::<Seq<char>>::empty());
    while i < ls.len()
        invariant
            i <= ls@.len() == lv.len(),
            lv == views(ls@),
            r@.len() == panes_in(lv.take(i as int)).len(),
            forall|k: int|
                0 <= k < r@.len() ==> (#[trigger] r@[k]).pane_pid == panes_in(lv.take(i as int))[k].0
                    && r@[k].target@ == panes_in(lv.take(i as int))[k].1,
        decreases ls@.len() - i,
    {
        let line = &ls[i];
        assert(lv.take(i + 1).drop_last() =~= lv.take(i as int));
        assert(lv.take(i + 1).last() == line@);
        let (a, b) = split_at_first_space(line);
        match b {
            Some(t) => {
                match parse_u32_chars(&a) {
                    Some(pid) => {
                        let target = crate::text::string_of_range(&t, 0, t.len());
                        assert(t@.subrange(0, t@.len() as int) =~= t@);
                        r.push(PaneEntry { pane_pid: pid, target });
                    },
                    None => {},
                }
            },
            None => {},
        }
        i = i + 1;
    }
    assert(lv.take(ls@.len() as int) =~= lv);
    r
}

} // verus!
