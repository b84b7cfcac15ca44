//! Listing order: positions sorted by a key, largest first, ties in
//! position order.
use vstd::prelude::*;

verus! {

/// Position `a` is listed before position `b`.
pub open spec fn listed_before(keys: Seq<i128>, a: int, b: int) -> bool {
    keys[a] > keys[b] || (keys[a] == keys[b] && a < b)
}

/// `order` lists every position of `keys` once, largest key first.
pub open spec fn is_listing(order: Seq<usize>, keys: Seq<i128>) -> bool {
    &&& order.len() == keys.len()
    &&& forall|a: int| 0 <= a < order.len() ==> (#[trigger] order[a]) < keys.len()
    &&& forall|a: int, b: int|
        0 <= a < b < order.len() ==> listed_before(keys, #[trigger] order[a] as int, #[trigger] order[b] as int)
}

/// The positions of `keys`, largest key first, ties in position order.
pub fn listing_order(keys: &Vec<i128>) -> (r: Vec<usize>)
    ensures
        is_listing(r@, keys@),
{
    let mut r: Vec<usize> = Vec::new();
    let mut i: usize = 0;
    while i < keys.len()
        invariant
            i <= keys@.len(),
            r@.len() == i,
            forall|a: int| 0 <= a < r@.len() ==> (#[trigger] r@[a]) < i,
            forall|a: int, b: int|
                0 <= a < b < r@.len() ==> listed_before(keys@, #[trigger] r@[a] as int, #[trigger] r@[b] as int),
        decreases keys@.len() - i,
    {
        let ki = keys[i];
        let mut p: usize = 0;
        while p < r.len() && keys[r[p]] >= ki
            invariant
                p <= r@.len(),
                r@.len() == i,
                i < keys@.len(),
                ki == keys@[i as int],
                forall|a: int| 0 <= a < r@.len() ==> (#[trigger] r@[a]) < i,
                forall|a: int| 0 <= a < p ==> keys@[#[trigger] r@[a] as int] >= ki,
            decreases r@.len() - p,
        {
            p = p + 1;
        }
        let ghost old_r = r@;
        r.insert(p, i);
        proof {
            assert forall|a: int, b: int|
                0 <= a < b < r@.len() implies listed_before(keys@, #[trigger] r@[a] as int, #[trigger] r@[b] as int) by {
                if b < p {
                    assert(r@[a] == old_r[a] && r@[b] == old_r[b]);
                } else if b == p {
                    assert(r@[a] == old_r[a]);
                    assert(keys@[old_r[a] as int] >= ki);
                } else if a == p {
                    assert(r@[b] == old_r[b - 1]);
                    assert(keys@[old_r[p as int] as int] < ki);
                    if b - 1 > p {
                        assert(listed_before(keys@, old_r[p as int] as int, old_r[b - 1] as int));
                    }
                } else if a < p {
                    assert(r@[a] == old_r[a] && r@[b] == old_r[b - 1]);
                } else {
                    assert(r@[a] == old_r[a - 1] && r@[b] == old_r[b - 1]);
                }
            }
        }
        i = i + 1;
    }
    r
}

} // verus!
