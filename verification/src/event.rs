//! Hook events: which of them lead to a desktop notification, and what it
//! says.
use vstd::prelude::*;

use crate::text::{copy_str, last_segment, last_segment_of, str_eq, trim, trimmed};

verus! {

/// What a hook hands over on standard input, as far as it is used.
#[derive(Debug)]
pub struct HookInput {
    pub cwd: Option<String>,
}

/// A desktop notification to show.
#[derive(Debug)]
pub struct Notification {
    pub title: String,
    pub body: String,
}

/// The event kinds that may lead to a notification: an idle prompt, and a
/// permission prompt (sent as `asking` or as `permission`).
pub open spec fn notifies(kind: Seq<char>) -> bool {
    kind == "idle"@ || kind == "asking"@ || kind == "permission"@
}

/// Whether an event of this kind may lead to a notification: `idle`,
/// `asking` and `permission` may, every other kind is ignored.
pub fn handle(kind: &str) -> (r: bool)
    ensures
        r == notifies(kind@),
{
    str_eq(kind, "idle") || str_eq(kind, "asking") || str_eq(kind, "permission")
}

/// The project that a notification names: the last component of the working
/// directory, or `Agent` when the hook gave none.
pub open spec fn project_of(cwd: Option<Seq<char>>) -> Seq<char> {
    match cwd {
        Some(p) => last_segment(p),
        None => "Agent"@,
    }
}

/// What the notification for an event says.
pub open spec fn notification_body(kind: Seq<char>, cwd: Option<Seq<char>>) -> Seq<char> {
    if kind == "asking"@ {
        project_of(cwd) + " needs your input"@
    } else {
        project_of(cwd) + " is ready"@
    }
}

/// The title of every notification.
pub open spec fn notification_title() -> Seq<char> {
    "Hop"@
}

/// The notification for an event of this kind, unless the instance's pane
/// has the focus (`focused`), in which case there is none.
pub fn notify_if_not_focused(kind: &str, input: &HookInput, focused: bool) -> (r: Option<
    Notification,
>)
    ensures
        focused ==> r is None,
        !focused ==> (r matches Some(n) && n.title@ == notification_title() && n.body@
            == notification_body(kind@, input.cwd.deep_view())),
{
    if focused {
        return None;
    }
    let mut body = match &input.cwd {
        Some(p) => last_segment_of(p.as_str()),
        None => copy_str("Agent"),
    };
    if str_eq(kind, "asking") {
        body.append(" needs your input");
    } else {
        body.append(" is ready");
    }
    Some(Notification { title: copy_str("Hop"), body })
}

/// Which events notify, and what they say: idle prompts and permission
/// prompts notify, nothing else does; the body names the last component of
/// the working directory (or the fallback name) and says that it needs
/// input for `asking`, that it is ready otherwise.
pub proof fn notification_law(kind: Seq<char>, cwd: Option<Seq<char>>)
    ensures
        notifies(kind) <==> (kind == "idle"@ || kind == "asking"@ || kind == "permission"@),
        kind == "asking"@ ==> notification_body(kind, cwd) == project_of(cwd) + " needs your input"@,
        kind != "asking"@ ==> notification_body(kind, cwd) == project_of(cwd) + " is ready"@,
        cwd matches Some(p) ==> project_of(cwd) == last_segment(p),
        cwd is None ==> project_of(cwd) == "Agent"@,
{
}

/// Whether the pane that the hook runs in has the focus: only under tmux
/// (`tmux_set`), when the hook's pane is known (`hook_pane`, from
/// `TMUX_PANE`) and tmux reported the active pane (`active_pane`, the output
/// of `tmux display-message -p '#{pane_id}'`), which must then be, trimmed,
/// the hook's pane.
pub fn is_focused_pane(tmux_set: bool, hook_pane: Option<&str>, active_pane: Option<&str>) -> (r:
    bool)
    ensures
        r == (tmux_set && hook_pane is Some && active_pane is Some && trimmed(active_pane->0@)
            == hook_pane->0@),
{
    if !tmux_set {
        return false;
    }
    match hook_pane {
        Some(h) => match active_pane {
            Some(a) => {
                let t = trim(a);
                str_eq(t.as_str(), h)
            },
            None => false,
        },
        None => false,
    }
}

} // verus!
