//! Running instances, as their session files describe them, and the order
//! in which they are shown.
use vstd::prelude::*;

use crate::order::{is_stable_order, precedes, stable_order};
use crate::text::{copy_str, last_segment, last_segment_of, str_eq};

verus! {

/// What an instance is doing.
#[derive(Debug, Clone, Copy, PartialEq, Eq, Structural)]
pub enum Status {
    Busy,
    Idle,
    Asking,
    Waiting,
    Unknown,
}

impl Status {
    /// The tag shown for this status.
    pub open spec fn label_text(self) -> Seq<char> {
        match self {
            Status::Busy => "[busy]"@,
            Status::Idle => "[idle]"@,
            Status::Asking => "[ask]"@,
            Status::Waiting => "[wait]"@,
            Status::Unknown => "[??]"@,
        }
    }

    /// The tag shown for this status.
    pub fn label(&self) -> (r: &'static str)
        ensures
            r@ == self.label_text(),
    {
        match self {
            Status::Busy => "[busy]",
            Status::Idle => "[idle]",
            Status::Asking => "[ask]",
            Status::Waiting => "[wait]",
            Status::Unknown => "[??]",
        }
    }
}

/// One running instance.
#[derive(Debug, Clone)]
pub struct Instance {
    pub pid: u32,
    pub session_id: String,
    pub cwd: String,
    pub status: Status,
    pub name: Option<String>,
    pub started_at: u64,
}

/// The contents of one session file.
#[derive(Debug)]
pub struct SessionFile {
    pub pid: u32,
    pub session_id: String,
    pub cwd: String,
    pub status: Option<String>,
    pub name: Option<String>,
    pub started_at: Option<u64>,
}

/// The status that a session file's `status` field names.
pub open spec fn status_named(s: Option<Seq<char>>) -> Status {
    match s {
        Some(t) => if t == "busy"@ {
            Status::Busy
        } else if t == "idle"@ {
            Status::Idle
        } else if t == "asking"@ {
            Status::Asking
        } else if t == "waiting"@ {
            Status::Waiting
        } else {
            Status::Unknown
        },
        None => Status::Unknown,
    }
}

/// The status that a session file's `status` field names.
pub fn parse_status(s: &Option<String>) -> (r: Status)
    ensures
        r == status_named(s.deep_view()),
{
    match s {
        Some(t) => {
            let t = t.as_str();
            if str_eq(t, "busy") {
                Status::Busy
            } else if str_eq(t, "idle") {
                Status::Idle
            } else if str_eq(t, "asking") {
                Status::Asking
            } else if str_eq(t, "waiting") {
                Status::Waiting
            } else {
                Status::Unknown
            }
        },
        None => Status::Unknown,
    }
}

/// The instance that a session file describes.
pub open spec fn instance_of(f: SessionFile) -> Instance {
    Instance {
        pid: f.pid,
        session_id: f.session_id,
        cwd: f.cwd,
        status: status_named(f.status.deep_view()),
        name: f.name,
        started_at: match f.started_at {
            Some(t) => t,
            None => 0,
        },
    }
}

/// The instance that a session file describes: its status parsed, a
/// missing start time read as 0.
pub fn instance_from(f: SessionFile) -> (r: Instance)
    ensures
        r == instance_of(f),
{
    let status = parse_status(&f.status);
    let started_at = match f.started_at {
        Some(t) => t,
        None => 0,
    };
    Instance { pid: f.pid, session_id: f.session_id, cwd: f.cwd, status, name: f.name, started_at }
}

/// The key by which instances are shown: idle ones first, then the most
/// recently started first.
pub open spec fn display_key(i: Instance) -> u128 {
    ((if i.status == Status::Idle {
        0int
    } else {
        0x1_0000_0000_0000_0000int
    }) + (u64::MAX - i.started_at)) as u128
}

/// `a` may be shown before `b`: `a` is idle and `b` is not, or both are
/// alike in that and `a` started no earlier than `b`.
pub open spec fn shown_before(a: Instance, b: Instance) -> bool {
    ||| (a.status == Status::Idle && b.status != Status::Idle)
    ||| ((a.status == Status::Idle) == (b.status == Status::Idle) && a.started_at >= b.started_at)
}

/// The instances are in the order in which they are shown.
pub open spec fn in_display_order(s: Seq<Instance>) -> bool {
    forall|k: int, l: int| 0 <= k < l < s.len() ==> shown_before(#[trigger] s[k], #[trigger] s[l])
}

/// The instances of `files`, in the order of `p`, which is the stable
/// sort of the files' positions by display key.
pub open spec fn arranged(files: Seq<SessionFile>, p: Seq<usize>, r: Seq<Instance>) -> bool {
    &&& is_stable_order(files.map_values(|f: SessionFile| display_key(instance_of(f))), p)
    &&& r.len() == p.len()
    &&& forall|k: int| 0 <= k < r.len() ==> #[trigger] r[k] == instance_of(files[p[k] as int])
}

proof fn lemma_display_key_order(a: Instance, b: Instance)
    ensures
        display_key(a) <= display_key(b) <==> shown_before(a, b),
        display_key(a) == display_key(b) <==> (a.status == Status::Idle) == (b.status
            == Status::Idle) && a.started_at == b.started_at,
{
}

/// The display key of an instance.
fn key_of(i: &Instance) -> (k: u128)
    ensures
        k == display_key(*i),
{
    let base: u128 = if i.status == Status::Idle {
        0
    } else {
        0x1_0000_0000_0000_0000
    };
    base + (u64::MAX - i.started_at) as u128
}

/// The instances that the session files describe, idle ones first and then
/// the most recently started first; files alike in both keep their order.
pub fn discover(files: Vec<SessionFile>) -> (r: Vec<Instance>)
    ensures
        exists|p: Seq<usize>| arranged(files@, p, r@),
        in_display_order(r@),
{
    let ghost fs = files@;
    let ghost keys_spec = fs.map_values(|f: SessionFile| display_key(instance_of(f)));
    let n = files.len();
    let mut files = files;
    let mut slots: Vec<Option<Instance>> = Vec::new();
    let mut keys: Vec<u128> = Vec::new();
    let mut i: usize = 0;
    while i < n
        invariant
            i <= n == fs.len(),
            files@ == fs.skip(i as int),
            keys_spec == fs.map_values(|f: SessionFile| display_key(instance_of(f))),
            slots@.len() == i,
            keys@.len() == i,
            forall|k: int| 0 <= k < i ==> #[trigger] slots@[k] == Some(instance_of(fs[k])),
            forall|k: int| 0 <= k < i ==> #[trigger] keys@[k] == keys_spec[k],
        decreases n - i,
    {
        assert(files@[0] == fs[i as int]);
        let f = files.remove(0);
        assert(files@ =~= fs.skip(i + 1));
        let inst = instance_from(f);
        keys.push(key_of(&inst));
        slots.push(Some(inst));
        i = i + 1;
    }
    assert(keys@ =~= keys_spec);
    let p = stable_order(&keys);
    let mut r: Vec<Instance> = Vec::new();
    let mut k: usize = 0;
    while k < n
        invariant
            k <= n == fs.len() == p@.len() == slots@.len(),
            is_stable_order(keys_spec, p@),
            keys_spec.len() == n,
            r@.len() == k,
            forall|m: int| 0 <= m < k ==> #[trigger] r@[m] == instance_of(fs[p@[m] as int]),
            forall|j: int|
                0 <= j < n ==> #[trigger] slots@[j] == if p@.take(k as int).contains(j as usize) {
                    None
                } else {
                    Some(instance_of(fs[j]))
                },
        decreases n - k,
    {
        let idx = p[k];
        assert(!p@.take(k as int).contains(idx)) by {
            if p@.take(k as int).contains(idx) {
                let m = choose|m: int| 0 <= m < k && p@.take(k as int)[m] == idx;
                assert(precedes(keys_spec, p@[m] as int, p@[k as int] as int));
            }
        }
        let mut taken: Option<Instance> = None;
        let ghost old_slots = slots@;
        slots.set_and_swap(idx, &mut taken);
        assert(slots@ == old_slots.update(idx as int, None));
        assert(taken == Some(instance_of(fs[idx as int])));
        let inst = taken.unwrap();
        r.push(inst);
        assert forall|j: int| 0 <= j < n implies #[trigger] slots@[j] == if p@.take(k + 1).contains(
            j as usize,
        ) {
            None
        } else {
            Some(instance_of(fs[j]))
        } by {
            assert(p@.take(k + 1) =~= p@.take(k as int).push(idx));
            assert(p@.take(k + 1)[k as int] == idx);
            if j != idx {
                assert(p@.take(k + 1).contains(j as usize) == p@.take(k as int).contains(j as usize));
            }
        }
        k = k + 1;
    }
    assert(arranged(fs, p@, r@));
    assert forall|a: int, b: int| 0 <= a < b < r@.len() implies shown_before(
        #[trigger] r@[a],
        #[trigger] r@[b],
    ) by {
        assert(precedes(keys_spec, p@[a] as int, p@[b] as int));
        lemma_display_key_order(r@[a], r@[b]);
    }
    r
}

/// The name under which an instance is shown: its own name if it has one,
/// else the last component of its working directory.
pub open spec fn shown_name(i: Instance) -> Seq<char> {
    match i.name.deep_view() {
        Some(n) => n,
        None => last_segment(i.cwd@),
    }
}

/// The name under which an instance is shown.
pub fn shown_name_of(i: &Instance) -> (r: String)
    ensures
        r@ == shown_name(*i),
{
    match &i.name {
        Some(n) => copy_str(n.as_str()),
        None => last_segment_of(i.cwd.as_str()),
    }
}

/// Instance `k` is one that a jump may go to: idle, and not running in the
/// current pane.
pub open spec fn jump_candidate(instances: Seq<Instance>, in_current_pane: Seq<bool>, k: int) -> bool {
    instances[k].status == Status::Idle && !in_current_pane[k]
}

/// The process id of the first instance that is idle and not in the
/// current pane (`in_current_pane[k]` says whether instance `k` runs there),
/// or `None` when there is no such instance.
pub fn jump_target(instances: &Vec<Instance>, in_current_pane: &Vec<bool>) -> (r: Option<u32>)
    requires
        instances@.len() == in_current_pane@.len(),
    ensures
        r is None <==> forall|k: int|
            0 <= k < instances@.len() ==> !jump_candidate(instances@, in_current_pane@, k),
        r is Some ==> exists|k: int|
            0 <= k < instances@.len() && jump_candidate(instances@, in_current_pane@, k) && r
                == Some(instances@[k].pid) && forall|j: int|
                0 <= j < k ==> !jump_candidate(instances@, in_current_pane@, j),
{
    let n = instances.len();
    let mut k: usize = 0;
    while k < n
        invariant
            k <= n == instances@.len() == in_current_pane@.len(),
            forall|j: int| 0 <= j < k ==> !jump_candidate(instances@, in_current_pane@, j),
        decreases n - k,
    {
        if instances[k].status == Status::Idle && !in_current_pane[k] {
            assert(jump_candidate(instances@, in_current_pane@, k as int));
            return Some(instances[k].pid);
        }
        k = k + 1;
    }
    None
}

/// The tags of the statuses, and the name under which an instance is shown:
/// its own name, else the last component of its working directory.
pub proof fn shown_text_law(i: Instance)
    ensures
        Status::Busy.label_text() == "[busy]"@,
        Status::Idle.label_text() == "[idle]"@,
        Status::Asking.label_text() == "[ask]"@,
        Status::Waiting.label_text() == "[wait]"@,
        Status::Unknown.label_text() == "[??]"@,
        i.name matches Some(n) ==> shown_name(i) == n@,
        i.name is None ==> shown_name(i) == last_segment(i.cwd@),
{
}

/// In the order in which instances are shown, no idle instance comes after
/// one that is not idle, and among instances alike in that, none comes
/// after one that started earlier.
pub proof fn display_order_law(s: Seq<Instance>)
    requires
        in_display_order(s),
    ensures
        forall|k: int, l: int|
            #![trigger s[k], s[l]]
            0 <= k < l < s.len() && s[l].status == Status::Idle ==> s[k].status == Status::Idle,
        forall|k: int, l: int|
            #![trigger s[k], s[l]]
            0 <= k < l < s.len() && (s[k].status == Status::Idle) == (s[l].status == Status::Idle)
                ==> s[k].started_at >= s[l].started_at,
{
    assert forall|k: int, l: int|
        #![trigger s[k], s[l]]
        0 <= k < l < s.len() && s[l].status == Status::Idle implies s[k].status == Status::Idle by {
        assert(shown_before(s[k], s[l]));
    }
    assert forall|k: int, l: int|
        #![trigger s[k], s[l]]
        0 <= k < l < s.len() && (s[k].status == Status::Idle) == (s[l].status == Status::Idle)
            implies s[k].started_at >= s[l].started_at by {
        assert(shown_before(s[k], s[l]));
    }
}

/// The instances that a jump may go to are exactly the idle ones outside
/// the current pane, wherever they stand in the list.
pub proof fn jump_candidates_are_idle_outside_pane(instances: Seq<Instance>, in_current_pane: Seq<bool>)
    ensures
        forall|k: int|
            0 <= k < instances.len() ==> (jump_candidate(instances, in_current_pane, k) <==> (
            instances[k].status == Status::Idle && !in_current_pane[k])),
{
}

/// The instance that a session file describes keeps the file's process id,
/// session id, working directory and name; its start time is the file's,
/// or 0 when the file has none; its status is the one the file names
/// (`busy`, `idle`, `asking`, `waiting`), else `Unknown`.
pub proof fn instance_keeps_the_file(f: SessionFile)
    ensures
        instance_of(f).pid == f.pid,
        instance_of(f).session_id == f.session_id,
        instance_of(f).cwd == f.cwd,
        instance_of(f).name == f.name,
        f.started_at matches Some(t) ==> instance_of(f).started_at == t,
        f.started_at is None ==> instance_of(f).started_at == 0,
        f.status.deep_view() == Some("busy"@) ==> instance_of(f).status == Status::Busy,
        f.status.deep_view() == Some("idle"@) ==> instance_of(f).status == Status::Idle,
        f.status.deep_view() == Some("asking"@) ==> instance_of(f).status == Status::Asking,
        f.status.deep_view() == Some("waiting"@) ==> instance_of(f).status == Status::Waiting,
        (f.status.deep_view() != Some("busy"@) && f.status.deep_view() != Some("idle"@)
            && f.status.deep_view() != Some("asking"@) && f.status.deep_view() != Some("waiting"@))
            ==> instance_of(f).status == Status::Unknown,
{
    reveal_strlit("busy");
    reveal_strlit("idle");
    reveal_strlit("asking");
    reveal_strlit("waiting");
    assert("busy"@[0] == 'b' && "idle"@[0] == 'i' && "asking"@[0] == 'a' && "waiting"@[0] == 'w');
}

/// A jump goes to the most recently started idle instance outside the
/// current pane: when the instances are in the order in which they are
/// shown, the instance that `jump_target` picks started no earlier than any
/// other candidate.
pub proof fn jump_goes_to_latest(
    instances: Seq<Instance>,
    in_current_pane: Seq<bool>,
    k: int,
)
    requires
        instances.len() == in_current_pane.len(),
        in_display_order(instances),
        0 <= k < instances.len(),
        jump_candidate(instances, in_current_pane, k),
        forall|j: int| 0 <= j < k ==> !jump_candidate(instances, in_current_pane, j),
    ensures
        forall|j: int|
            0 <= j < instances.len() && jump_candidate(instances, in_current_pane, j)
                ==> instances[j].started_at <= instances[k].started_at,
{
    assert forall|j: int|
        0 <= j < instances.len() && jump_candidate(instances, in_current_pane, j) implies instances[j].started_at
        <= instances[k].started_at by {
        if j > k {
            assert(shown_before(instances[k], instances[j]));
        }
    }
}

} // verus!
