use vstd::prelude::*;

verus! {

/// Position `i` comes before position `j`: its key is larger, or the keys are
/// equal and `i` is the earlier position.
pub open spec fn precedes(keys: Seq<Option<i128>>, i: int, j: int) -> bool {
    keys[i]->0 > keys[j]->0 || (keys[i]->0 == keys[j]->0 && i < j)
}

/// `order` lists exactly the positions of `keys` that hold a key, from the
/// largest key to the smallest, equal keys in the order of their positions.
pub open spec fn is_ranking(keys: Seq<Option<i128>>, order: Seq<usize>) -> bool {
    &&& forall|a: int| 0 <= a < order.len() ==> #[trigger] order[a] < keys.len() && keys[order[a] as int] is Some
    &&& forall|i: int| 0 <= i < keys.len() && #[trigger] keys[i] is Some ==> order.contains(i as usize)
    &&& forall|a: int, b: int|
        0 <= a < b < order.len() ==> precedes(keys, #[trigger] order[a] as int, #[trigger] order[b] as int)
}

/// `order` ranks the positions below `i` that hold a key.
pub open spec fn ranks_prefix(keys: Seq<Option<i128>>, order: Seq<usize>, i: int) -> bool {
    &&& forall|a: int| 0 <= a < order.len() ==> #[trigger] order[a] < i && keys[order[a] as int] is Some
    &&& forall|j: int| 0 <= j < i && #[trigger] keys[j] is Some ==> order.contains(j as usize)
    &&& forall|a: int, b: int|
        0 <= a < b < order.len() ==> precedes(keys, #[trigger] order[a] as int, #[trigger] order[b] as int)
}

/// Puts position `i`, whose key is `k`, into a ranking of the positions below `i`.
fn place(keys: &Vec<Option<i128>>, order: &mut Vec<usize>, i: usize, k: i128)
    requires
        i < keys@.len(),
        keys@[i as int] == Some(k),
        ranks_prefix(keys@, old(order)@, i as int),
    ensures
        ranks_prefix(keys@, final(order)@, i + 1),
        final(order)@.len() == old(order)@.len() + 1,
{
    let mut p: usize = 0;
    while p < order.len() && !(k > keys[order[p]].unwrap())
        invariant
            i < keys@.len(),
            keys@[i as int] == Some(k),
            ranks_prefix(keys@, order@, i as int),
            p <= order@.len(),
            forall|a: int| 0 <= a < p ==> keys@[#[trigger] order@[a] as int]->0 >= k,
        decreases order@.len() - p,
    {
        p += 1;
    }
    let ghost old_order = order@;
    proof {
        assert forall|b: int| p <= b < old_order.len() implies k > keys@[#[trigger] old_order[b] as int]->0 by {
            if b > p {
                assert(precedes(keys@, old_order[p as int] as int, old_order[b] as int));
            }
        }
    }
    order.insert(p, i);
    proof {
        assert(order@ == old_order.insert(p as int, i));
        assert forall|a: int, b: int| 0 <= a < b < order@.len() implies precedes(
            keys@,
            #[trigger] order@[a] as int,
            #[trigger] order@[b] as int,
        ) by {
            if a < p && b < p {
                assert(precedes(keys@, old_order[a] as int, old_order[b] as int));
            } else if a < p && b == p {
            } else if a < p {
                assert(precedes(keys@, old_order[a] as int, old_order[b - 1] as int));
            } else if a == p {
            } else {
                assert(precedes(keys@, old_order[a - 1] as int, old_order[b - 1] as int));
            }
        }
        assert forall|j: int| 0 <= j < i + 1 && #[trigger] keys@[j] is Some implies order@.contains(j as usize) by {
            if j < i {
                let a = choose|a: int| 0 <= a < old_order.len() && old_order[a] == j as usize;
                if a < p {
                    assert(order@[a] == j as usize);
                } else {
                    assert(order@[a + 1] == j as usize);
                }
            } else {
                assert(order@[p as int] == i);
            }
        }
        assert forall|a: int| 0 <= a < order@.len() implies #[trigger] order@[a] < i + 1 && keys@[order@[a] as int] is Some by {
            if a < p {
                assert(order@[a] == old_order[a]);
            } else if a > p {
                assert(order@[a] == old_order[a - 1]);
            }
        }
    }
}

/// The positions of `keys` that hold a key, in decreasing order of key; a stable
/// order, so that equal keys keep the order of their positions.
pub fn rank_desc(keys: &Vec<Option<i128>>) -> (order: Vec<usize>)
    ensures
        is_ranking(keys@, order@),
        (forall|i: int| 0 <= i < keys@.len() ==> #[trigger] keys@[i] is Some) ==> order@.len() == keys@.len(),
{
    let mut order: Vec<usize> = Vec::new();
    let n = keys.len();
    let mut i: usize = 0;
    while i < n
        invariant
            n == keys@.len(),
            i <= n,
            ranks_prefix(keys@, order@, i as int),
            (forall|j: int| 0 <= j < i ==> #[trigger] keys@[j] is Some) ==> order@.len() == i,
        decreases n - i,
    {
        if let Some(k) = keys[i] {
            place(keys, &mut order, i, k);
        } else {
            proof {
                assert(!(forall|j: int| 0 <= j < i + 1 ==> #[trigger] keys@[j] is Some));
            }
            assert forall|j: int| 0 <= j < i + 1 && #[trigger] keys@[j] is Some implies order@.contains(j as usize) by {
                if j < i {
                }
            }
        }
        i += 1;
    }
    order
}

} // verus!
