//! The geo service: ranking hotels by distance, and handing out cached
//! hotel information.
use vstd::prelude::*;
use crate::cache::{group, taken, GroupCache};
use crate::order::views;

verus! {

/// Whether item `a` ranks before item `b` when items are ordered by their
/// keys, ties kept in their original order.
pub open spec fn ranks_before(keys: Seq<u64>, a: int, b: int) -> bool {
    keys[a] < keys[b] || (keys[a] == keys[b] && a < b)
}

/// The number of hotels a nearby search returns: `nearby_num` of them, or
/// all when there are fewer (a negative `nearby_num` is only accepted when
/// there are none).
pub open spec fn nearby_count(n: int, nearby_num: int) -> int {
    if n <= nearby_num || nearby_num < 0 {
        n
    } else {
        nearby_num
    }
}

/// `r` lists positions of the `nearby_num` hotels (or all, when fewer)
/// that rank first by `keys`, in rank order: it is the start of the ranking
/// of all positions.
pub open spec fn nearest_first(keys: Seq<u64>, nearby_num: int, r: Seq<usize>) -> bool {
    &&& r.len() == nearby_count(keys.len() as int, nearby_num)
    &&& forall|a: int| 0 <= a < r.len() ==> #[trigger] r[a] < keys.len()
    &&& forall|a: int, b: int|
        0 <= a < b < r.len() ==> ranks_before(keys, #[trigger] r[a] as int, #[trigger] r[b] as int)
    &&& forall|j: int, a: int|
        #![trigger r.contains(j as usize), r[a]]
        0 <= j < keys.len() && !r.contains(j as usize) && 0 <= a < r.len() ==> ranks_before(
            keys,
            r[a] as int,
            j,
        )
}

/// Ranks the hotels whose distance keys are `keys` (smaller is nearer; a
/// key ordering the same way as the distance) and returns the positions of
/// the `nearby_num` nearest, nearest first. Hotels at the same distance keep
/// their order.
pub fn rank_nearby(keys: &Vec<u64>, nearby_num: i64) -> (r: Vec<usize>)
    requires
        keys@.len() == 0 || 0 <= nearby_num <= usize::MAX,
    ensures
        nearest_first(keys@, nearby_num as int, r@),
{
    let n: usize = keys.len();
    let mut order: Vec<usize> = Vec::new();
    let mut j: usize = 0;
    while j < n
        invariant
            j <= n,
            n == keys@.len(),
            order@.len() == j,
            forall|a: int| 0 <= a < order@.len() ==> #[trigger] order@[a] < j,
            forall|a: int, b: int|
                0 <= a < b < order@.len() ==> ranks_before(keys@, #[trigger] order@[a] as int, #[trigger] order@[b] as int),
            forall|k: int| 0 <= k < j ==> #[trigger] order@.contains(k as usize),
        decreases n - j,
    {
        let kj: u64 = keys[j];
        let mut p: usize = 0;
        while p < order.len() && keys[order[p]] <= kj
            invariant
                p <= order@.len(),
                n == keys@.len(),
                j < n,
                kj == keys@[j as int],
                forall|a: int| 0 <= a < order@.len() ==> #[trigger] order@[a] < j,
                forall|a: int| 0 <= a < p ==> keys@[#[trigger] order@[a] as int] <= kj,
            decreases order.len() - p,
        {
            p = p + 1;
        }
        let ghost old_order = order@;
        order.insert(p, j);
        proof {
            assert forall|a: int, b: int| 0 <= a < b < order@.len() implies ranks_before(
                keys@,
                #[trigger] order@[a] as int,
                #[trigger] order@[b] as int,
            ) by {
                if b < p {
                    assert(order@[a] == old_order[a] && order@[b] == old_order[b]);
                } else if a < p && b == p {
                    assert(order@[a] == old_order[a]);
                } else if a < p {
                    assert(order@[a] == old_order[a] && order@[b] == old_order[b - 1]);
                    assert(ranks_before(keys@, old_order[a] as int, old_order[b - 1] as int));
                } else if a == p {
                    assert(order@[b] == old_order[b - 1]);
                    assert(ranks_before(keys@, old_order[p as int] as int, old_order[b - 1] as int)
                        || b - 1 == p);
                } else {
                    assert(order@[a] == old_order[a - 1] && order@[b] == old_order[b - 1]);
                    assert(ranks_before(keys@, old_order[a - 1] as int, old_order[b - 1] as int));
                }
            }
            assert forall|k: int| 0 <= k < j + 1 implies #[trigger] order@.contains(k as usize) by {
                if k < j {
                    assert(old_order.contains(k as usize));
                    let a: int = choose|a: int| 0 <= a < old_order.len() && old_order[a] == k as usize;
                    if a < p {
                        assert(order@[a] == k as usize);
                    } else {
                        assert(order@[a + 1] == k as usize);
                    }
                } else {
                    assert(order@[p as int] == k as usize);
                }
            }
        }
        j = j + 1;
    }
    let limit: usize = if n == 0 {
        0
    } else {
        nearby_num as usize
    };
    if limit < n {
        let ghost full = order@;
        order.truncate(limit);
        proof {
            assert forall|jj: int, a: int|
                #![trigger order@.contains(jj as usize), order@[a]]
                0 <= jj < keys@.len() && !order@.contains(jj as usize) && 0 <= a < order@.len()
                implies ranks_before(keys@, order@[a] as int, jj) by {
                assert(full.contains(jj as usize));
                let b: int = choose|b: int| 0 <= b < full.len() && full[b] == jj as usize;
                if b < limit {
                    assert(order@[b] == jj as usize);
                    assert(order@.contains(jj as usize));
                }
                assert(order@[a] == full[a]);
            }
        }
    }
    order
}

/// The nearby search: ranks the hotels by their distance keys and returns
/// how many were kept, their ids and their positions, nearest first.
pub fn nearby(hotel_ids: &Vec<String>, keys: &Vec<u64>, nearby_num: i64) -> (r: (i64, Vec<String>, Vec<usize>))
    requires
        hotel_ids@.len() == keys@.len(),
        keys@.len() == 0 || 0 <= nearby_num <= usize::MAX,
    ensures
        nearest_first(keys@, nearby_num as int, r.2@),
        r.0 == r.2@.len(),
        r.1@.len() == r.2@.len(),
        forall|a: int| 0 <= a < r.1@.len() ==> (#[trigger] r.1@[a])@ == hotel_ids@[r.2@[a] as int]@,
{
    let order = rank_nearby(keys, nearby_num);
    let mut ids: Vec<String> = Vec::new();
    let mut a: usize = 0;
    while a < order.len()
        invariant
            a <= order@.len(),
            hotel_ids@.len() == keys@.len(),
            forall|b: int| 0 <= b < order@.len() ==> #[trigger] order@[b] < keys@.len(),
            ids@.len() == a,
            forall|b: int| 0 <= b < a ==> (#[trigger] ids@[b])@ == hotel_ids@[order@[b] as int]@,
        decreases order.len() - a,
    {
        ids.push(hotel_ids[order[a]].clone());
        a = a + 1;
    }
    let count: i64 = order.len() as i64;
    (count, ids, order)
}

/// What a peek at the cache hands out for `ids`, in order, and the cache
/// afterwards: the items under each id are taken out as the id is reached,
/// so an id that comes again finds nothing.
pub open spec fn peeked<V>(m: Map<Seq<char>, Seq<V>>, ids: Seq<Seq<char>>) -> (Seq<V>, Map<
    Seq<char>,
    Seq<V>,
>)
    decreases ids.len(),
{
    if ids.len() == 0 {
        (Seq::empty(), m)
    } else {
        let prev = peeked(m, ids.drop_last());
        (prev.0 + group(prev.1, ids.last()), taken(prev.1, ids.last()))
    }
}

/// Hands out the cached information of the given hotels, moving it out of
/// the cache.
pub fn peek_info<V>(cache: &mut GroupCache<V>, hotel_ids: &Vec<String>) -> (r: Vec<V>)
    requires
        old(cache).wf(),
    ensures
        final(cache).wf(),
        r@ == peeked(old(cache)@, views(hotel_ids@)).0,
        final(cache)@ == peeked(old(cache)@, views(hotel_ids@)).1,
{
    let ghost start = cache@;
    let mut hotel_info_list: Vec<V> = Vec::new();
    let mut i: usize = 0;
    while i < hotel_ids.len()
        invariant
            i <= hotel_ids@.len(),
            cache.wf(),
            hotel_info_list@ == peeked(start, views(hotel_ids@.take(i as int))).0,
            cache@ == peeked(start, views(hotel_ids@.take(i as int))).1,
        decreases hotel_ids.len() - i,
    {
        proof {
            assert(views(hotel_ids@.take(i + 1)).drop_last() =~= views(hotel_ids@.take(i as int)));
        }
        let mut found = cache.take(&hotel_ids[i]);
        hotel_info_list.append(&mut found);
        i = i + 1;
    }
    proof {
        assert(hotel_ids@.take(hotel_ids@.len() as int) =~= hotel_ids@);
    }
    hotel_info_list
}

} // verus!
