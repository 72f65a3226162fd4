//! Stable ordering of items by integer keys.
use vstd::prelude::*;

verus! {

/// Item `i` goes before item `j`: a smaller key, or the same key and an
/// earlier position (which is what a stable sort keeps).
pub open spec fn precedes(keys: Seq<u128>, i: int, j: int) -> bool {
    keys[i] < keys[j] || (keys[i] == keys[j] && i < j)
}

/// `p` lists every position of `keys` once, ordered by key and, among
/// equal keys, by position: the order in which a stable sort by key leaves
/// the items.
pub open spec fn is_stable_order(keys: Seq<u128>, p: Seq<usize>) -> bool {
    &&& p.len() == keys.len()
    &&& forall|k: int| 0 <= k < p.len() ==> p[k] < keys.len()
    &&& forall|i: usize| i < keys.len() ==> #[trigger] p.contains(i)
    &&& forall|k: int, l: int|
        0 <= k < l < p.len() ==> precedes(keys, #[trigger] p[k] as int, #[trigger] p[l] as int)
}

/// A stable order lists every position exactly once, never puts a larger
/// key before a smaller one, and keeps positions with equal keys in their
/// original order.
pub proof fn stable_order_law(keys: Seq<u128>, p: Seq<usize>)
    requires
        is_stable_order(keys, p),
    ensures
        p.len() == keys.len(),
        forall|i: usize| i < keys.len() ==> #[trigger] p.contains(i),
        forall|k: int, l: int| 0 <= k < l < p.len() ==> #[trigger] p[k] != #[trigger] p[l],
        forall|k: int, l: int|
            0 <= k < l < p.len() ==> keys[#[trigger] p[k] as int] <= keys[#[trigger] p[l] as int],
        forall|k: int, l: int|
            0 <= k < l < p.len() && keys[p[k] as int] == keys[p[l] as int] ==> #[trigger] p[k]
                < #[trigger] p[l],
{
    assert forall|k: int, l: int| 0 <= k < l < p.len() implies #[trigger] p[k] != #[trigger] p[l] by {
        assert(precedes(keys, p[k] as int, p[l] as int));
    }
}

/// The positions of `keys`, stably sorted by key.
pub fn stable_order(keys: &Vec<u128>) -> (p: Vec<usize>)
    ensures
        is_stable_order(keys@, p@),
{
    let n = keys.len();
    let mut p: Vec<usize> = Vec::new();
    let mut i: usize = 0;
    while i < n
        invariant
            i <= n == keys@.len(),
            p@.len() == i,
            forall|k: int| 0 <= k < p@.len() ==> p@[k] < i,
            forall|j: usize| j < i ==> #[trigger] p@.contains(j),
            forall|k: int, l: int|
                0 <= k < l < p@.len() ==> precedes(
                    keys@,
                    #[trigger] p@[k] as int,
                    #[trigger] p@[l] as int,
                ),
        decreases n - i,
    {
        let key = keys[i];
        let mut pos: usize = 0;
        while pos < p.len() && keys[p[pos]] <= key
            invariant
                pos <= p@.len() == i,
                i < n == keys@.len(),
                forall|k: int| 0 <= k < p@.len() ==> p@[k] < i,
                forall|k: int| 0 <= k < pos ==> keys@[#[trigger] p@[k] as int] <= key,
            decreases p@.len() - pos,
        {
            pos = pos + 1;
        }
        let ghost old_p = p@;
        proof {
            assert forall|l: int| pos <= l < old_p.len() implies key < keys@[#[trigger] old_p[l] as int] by {
                if pos < old_p.len() {
                    if l > pos {
                        assert(precedes(keys@, old_p[pos as int] as int, old_p[l] as int));
                    }
                }
            }
        }
        p.insert(pos, i);
        assert(p@ == old_p.insert(pos as int, i));
        assert forall|k: int, l: int| 0 <= k < l < p@.len() implies precedes(
            keys@,
            #[trigger] p@[k] as int,
            #[trigger] p@[l] as int,
        ) by {
            if k < pos && l < pos {
                assert(precedes(keys@, old_p[k] as int, old_p[l] as int));
            } else if k < pos && l == pos {
                assert(keys@[old_p[k] as int] <= key);
            } else if k < pos && l > pos {
                assert(precedes(keys@, old_p[k] as int, old_p[l - 1] as int));
            } else if k == pos {
                assert(key < keys@[old_p[l - 1] as int]);
            } else {
                assert(precedes(keys@, old_p[k - 1] as int, old_p[l - 1] as int));
            }
        }
        assert forall|j: usize| j < i + 1 implies #[trigger] p@.contains(j) by {
            if j == i {
                assert(p@[pos as int] == i);
            } else {
                assert(old_p.contains(j));
                let w = choose|w: int| 0 <= w < old_p.len() && old_p[w] == j;
                if w < pos {
                    assert(p@[w] == j);
                } else {
                    assert(p@[w + 1] == j);
                }
            }
        }
        i = i + 1;
    }
    p
}

} // verus!
