//! The research service: pairs the nearby hotels found by the geo service
//! with their distances.
use vstd::prelude::*;

verus! {

/// A hotel together with its distance from a point; the distance type is
/// whatever the geo service measures with.
pub struct HotelDistance<D> {
    pub hotel_id: String,
    pub distance: D,
}

/// The research service.
pub struct ReschService {
    pub name: String,
}

impl ReschService {
    /// Pairs the first `result_num` hotel ids of a nearby search with their
    /// distances.
    pub fn resch_nearby<D: Copy>(result_num: i64, hotel_ids: &Vec<String>, distances: &Vec<D>) -> (r:
        Vec<HotelDistance<D>>)
        requires
            0 <= result_num <= hotel_ids@.len(),
            result_num <= distances@.len(),
        ensures
            r@.len() == result_num,
            forall|i: int|
                0 <= i < result_num ==> (#[trigger] r@[i]).hotel_id@ == hotel_ids@[i]@
                    && r@[i].distance == distances@[i],
    {
        let len: usize = hotel_ids.len();
        assert(result_num <= len);
        let n: usize = result_num as usize;
        let mut hotel_distance: Vec<HotelDistance<D>> = Vec::new();
        let mut i: usize = 0;
        while i < n
            invariant
                n == result_num,
                n <= hotel_ids@.len(),
                n <= distances@.len(),
                i <= n,
                hotel_distance@.len() == i,
                forall|k: int|
                    0 <= k < i ==> (#[trigger] hotel_distance@[k]).hotel_id@ == hotel_ids@[k]@
                        && hotel_distance@[k].distance == distances@[k],
            decreases n - i,
        {
            hotel_distance.push(HotelDistance { hotel_id: hotel_ids[i].clone(), distance: distances[i] });
            i = i + 1;
        }
        hotel_distance
    }
}

} // verus!
