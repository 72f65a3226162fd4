//! The one-line status shown in the tmux status bar.
use vstd::prelude::*;

use crate::session::{shown_name, shown_name_of, Instance, Status};
use crate::text::{copy_str, decimal, push_decimal};

verus! {

/// Instance `k` waits for attention: it is idle, asking or waiting, and it
/// does not run in the current pane.
pub open spec fn is_ready(instances: Seq<Instance>, in_current_pane: Seq<bool>, k: int) -> bool {
    (instances[k].status == Status::Idle || instances[k].status == Status::Asking
        || instances[k].status == Status::Waiting) && !in_current_pane[k]
}

/// The positions, below `n`, of the instances that wait for attention.
pub open spec fn ready_among(instances: Seq<Instance>, in_current_pane: Seq<bool>, n: int) -> Seq<
    int,
>
    decreases n,
{
    if n <= 0 {
        Seq::empty()
    } else {
        let prev = ready_among(instances, in_current_pane, n - 1);
        if is_ready(instances, in_current_pane, n - 1) {
            prev.push(n - 1)
        } else {
            prev
        }
    }
}

/// The status line: empty when no instance waits for attention, `⏎ <name>`
/// when one does, `⏎ <count> ready` when several do.
pub open spec fn status_text(instances: Seq<Instance>, in_current_pane: Seq<bool>) -> Seq<char> {
    let r = ready_among(instances, in_current_pane, instances.len() as int);
    if r.len() == 0 {
        Seq::empty()
    } else if r.len() == 1 {
        "\u{23ce} "@ + shown_name(instances[r[0]])
    } else {
        "\u{23ce} "@ + decimal(r.len()) + " ready"@
    }
}

proof fn lemma_ready_among_bounds(instances: Seq<Instance>, in_current_pane: Seq<bool>, n: int)
    requires
        0 <= n,
    ensures
        ready_among(instances, in_current_pane, n).len() <= n,
        forall|k: int|
            0 <= k < ready_among(instances, in_current_pane, n).len() ==> 0 <= #[trigger] ready_among(
                instances,
                in_current_pane,
                n,
            )[k] < n,
    decreases n,
{
    if n > 0 {
        lemma_ready_among_bounds(instances, in_current_pane, n - 1);
    }
}

/// The instances that wait for attention are listed once each, in order,
/// and they are exactly the idle, asking or waiting ones outside the
/// current pane.
pub proof fn ready_are_exactly_the_waiting(instances: Seq<Instance>, in_current_pane: Seq<bool>, n: int)
    requires
        0 <= n <= instances.len() == in_current_pane.len(),
    ensures
        forall|k: int|
            #![trigger ready_among(instances, in_current_pane, n).contains(k)]
            0 <= k < n ==> (ready_among(instances, in_current_pane, n).contains(k) <==> ((
            instances[k].status == Status::Idle || instances[k].status == Status::Asking
                || instances[k].status == Status::Waiting) && !in_current_pane[k])),
        forall|a: int, b: int|
            0 <= a < b < ready_among(instances, in_current_pane, n).len() ==> #[trigger] ready_among(
                instances,
                in_current_pane,
                n,
            )[a] < #[trigger] ready_among(instances, in_current_pane, n)[b],
    decreases n,
{
    lemma_ready_among_bounds(instances, in_current_pane, n);
    if n > 0 {
        ready_are_exactly_the_waiting(instances, in_current_pane, n - 1);
        lemma_ready_among_bounds(instances, in_current_pane, n - 1);
        let prev = ready_among(instances, in_current_pane, n - 1);
        let cur = ready_among(instances, in_current_pane, n);
        assert(cur == if is_ready(instances, in_current_pane, n - 1) {
            prev.push(n - 1)
        } else {
            prev
        });
        assert forall|k: int| 0 <= k < n implies (cur.contains(k) <==> ((instances[k].status
            == Status::Idle || instances[k].status == Status::Asking || instances[k].status
            == Status::Waiting) && !in_current_pane[k])) by {
            let waiting = (instances[k].status == Status::Idle || instances[k].status == Status::Asking
                || instances[k].status == Status::Waiting) && !in_current_pane[k];
            if k < n - 1 {
                assert(prev.contains(k) <==> waiting);
                if cur.contains(k) {
                    let w = choose|w: int| 0 <= w < cur.len() && cur[w] == k;
                    if w < prev.len() {
                        assert(prev[w] == k);
                        assert(prev.contains(k));
                    } else {
                        assert(cur[w] == n - 1);
                    }
                }
                if waiting {
                    assert(prev.contains(k));
                    let w = choose|w: int| 0 <= w < prev.len() && prev[w] == k;
                    assert(cur[w] == k);
                    assert(cur.contains(k));
                }
            } else {
                assert(k == n - 1);
                if waiting {
                    assert(is_ready(instances, in_current_pane, n - 1));
                    assert(cur[cur.len() - 1] == n - 1);
                    assert(cur.contains(k));
                } else {
                    assert(!is_ready(instances, in_current_pane, n - 1));
                    if cur.contains(k) {
                        let w = choose|w: int| 0 <= w < cur.len() && cur[w] == k;
                        assert(prev[w] < n - 1);
                    }
                }
            }
        }
    }
}

/// What the status line says follows the number of instances that wait
/// for attention: nothing when none does, the one instance's name when one
/// does, the count followed by `ready` when two or more do.
pub proof fn status_line_follows_ready_count(instances: Seq<Instance>, in_current_pane: Seq<bool>)
    requires
        instances.len() == in_current_pane.len(),
    ensures
        ({
            let r = ready_among(instances, in_current_pane, instances.len() as int);
            &&& r.len() == 0 ==> status_text(instances, in_current_pane) == Seq::<char>::empty()
            &&& r.len() == 1 ==> status_text(instances, in_current_pane) == "\u{23ce} "@ + shown_name(
                instances[r[0]],
            )
            &&& r.len() >= 2 ==> status_text(instances, in_current_pane) == "\u{23ce} "@ + decimal(
                r.len(),
            ) + " ready"@
        }),
{
}

/// The status line for the instances, where `in_current_pane[k]` says
/// whether instance `k` runs in the current pane.
pub fn status_line(instances: &Vec<Instance>, in_current_pane: &Vec<bool>) -> (r: String)
    requires
        instances@.len() == in_current_pane@.len(),
    ensures
        r@ == status_text(instances@, in_current_pane@),
{
    let n = instances.len();
    let mut count: usize = 0;
    let mut first: usize = 0;
    let mut k: usize = 0;
    while k < n
        invariant
            k <= n == instances@.len() == in_current_pane@.len(),
            count == ready_among(instances@, in_current_pane@, k as int).len(),
            count > 0 ==> first == ready_among(instances@, in_current_pane@, k as int)[0],
        decreases n - k,
    {
        proof {
            lemma_ready_among_bounds(instances@, in_current_pane@, k as int);
        }
        let s = instances[k].status;
        if (s == Status::Idle || s == Status::Asking || s == Status::Waiting) && !in_current_pane[k] {
            if count == 0 {
                first = k;
            }
            count = count + 1;
        }
        k = k + 1;
    }
    proof {
        lemma_ready_among_bounds(instances@, in_current_pane@, n as int);
    }
    if count == 0 {
        String::new()
    } else if count == 1 {
        let mut line = copy_str("\u{23ce} ");
        let name = shown_name_of(&instances[first]);
        line.append(name.as_str());
        line
    } else {
        let mut line = copy_str("\u{23ce} ");
        push_decimal(&mut line, count);
        line.append(" ready");
        line
    }
}

} // verus!
