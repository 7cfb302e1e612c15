//! The rate service: which hotels provide what a user is looking for.
use vstd::prelude::*;
use crate::order::views;

verus! {

/// The bit of `favorite` that stands for feature `provide`: features are
/// numbered from 1, and the bit index wraps around the 64 bits of the mask.
pub open spec fn feature_bit(provide: int) -> int {
    (provide - 1) % 64
}

/// Whether a hotel providing feature `provide` suits a user whose favourite
/// features are the bits of `favorite`; a user with no favourite is suited
/// by every hotel.
pub open spec fn satisfies(favorite: i64, provide: i64) -> bool {
    favorite == 0 || ((favorite as u64) >> (feature_bit(provide as int) as u64)) & 1 == 1
}

/// What the rate service reads of a hotel.
pub struct HotelFeature {
    pub id: String,
    pub provide: i64,
}

/// Ids, in their order, of the hotels that suit `favorite`.
pub open spec fn suiting_ids(favorite: i64, hotels: Seq<HotelFeature>) -> Seq<Seq<char>>
    decreases hotels.len(),
{
    if hotels.len() == 0 {
        Seq::empty()
    } else if satisfies(favorite, hotels.last().provide) {
        suiting_ids(favorite, hotels.drop_last()).push(hotels.last().id@)
    } else {
        suiting_ids(favorite, hotels.drop_last())
    }
}

/// The rate plan: the ids of the first suiting hotels, at most `req_num`
/// (taken as a `usize`) of them.
pub open spec fn rate_plan(favorite: i64, req_num: i64, hotels: Seq<HotelFeature>) -> Seq<Seq<char>> {
    suiting_ids(favorite, hotels).take(
        if suiting_ids(favorite, hotels).len() <= (req_num as usize) {
            suiting_ids(favorite, hotels).len() as int
        } else {
            (req_num as usize) as int
        },
    )
}

/// The suiting ids of a prefix of the hotels are a prefix of those of all
/// of them.
pub proof fn lemma_suiting_ids_prefix(favorite: i64, hotels: Seq<HotelFeature>, i: int)
    requires
        0 <= i <= hotels.len(),
    ensures
        suiting_ids(favorite, hotels.take(i)).len() <= suiting_ids(favorite, hotels).len(),
        suiting_ids(favorite, hotels.take(i)) =~= suiting_ids(favorite, hotels).take(
            suiting_ids(favorite, hotels.take(i)).len() as int,
        ),
    decreases hotels.len(),
{
    if i == hotels.len() {
        assert(hotels.take(i) =~= hotels);
    } else {
        lemma_suiting_ids_prefix(favorite, hotels.drop_last(), i);
        assert(hotels.drop_last().take(i) =~= hotels.take(i));
    }
}

/// Every hotel that the rate-plan scan examines (those reached before the
/// plan holds `req_num`, taken as a `usize`, ids) has a feature number whose
/// predecessor is an `i64`.
pub open spec fn examined_checkable(favorite: i64, req_num: i64, hotels: Seq<HotelFeature>) -> bool {
    forall|i: int|
        0 <= i < hotels.len() && suiting_ids(favorite, hotels.take(i)).len() < (req_num as usize)
            ==> #[trigger] hotels[i].provide > i64::MIN
}

/// Taking more hotels never yields fewer suiting ids.
pub proof fn lemma_suiting_ids_len_monotone(favorite: i64, hotels: Seq<HotelFeature>, i: int, k: int)
    requires
        0 <= i <= k <= hotels.len(),
    ensures
        suiting_ids(favorite, hotels.take(i)).len() <= suiting_ids(favorite, hotels.take(k)).len(),
{
    lemma_suiting_ids_prefix(favorite, hotels.take(k), i);
    assert(hotels.take(k).take(i) =~= hotels.take(i));
}

/// The rate service.
pub struct RateService {
    pub name: String,
}

impl RateService {
    /// Checks if a hotel satisfies the user's requirement.
    pub fn check_satisfy(favorite: i64, provide: i64) -> (r: bool)
        requires
            provide > i64::MIN,
        ensures
            r == satisfies(favorite, provide),
    {
        let p: i64 = provide - 1;
        let shift: u32 = (p as u32) & 63;
        assert(shift < 64 && shift as int == (p as int) % 64) by (bit_vector)
            requires
                shift == (p as u32) & 63u32,
        ;
        let bits: u64 = favorite as u64;
        let res: u64 = bits >> shift;
        assert(shift as u64 == feature_bit(provide as int) as u64);
        if favorite == 0 || res & 1 == 1 {
            true
        } else {
            false
        }
    }

    /// Selects, in order, the ids of the first hotels that suit `favorite`,
    /// stopping once `req_num` of them (taken as a `usize`) are found.
    pub fn get_rate_plan(favorite: i64, req_num: i64, hotels: &Vec<HotelFeature>) -> (r: Vec<String>)
        requires
            examined_checkable(favorite, req_num, hotels@),
        ensures
            views(r@) == rate_plan(favorite, req_num, hotels@),
    {
        let limit: usize = req_num as usize;
        let mut hotel_ids: Vec<String> = Vec::new();
        let mut i: usize = 0;
        while i < hotels.len()
            invariant
                i <= hotels@.len(),
                limit == req_num as usize,
                examined_checkable(favorite, req_num, hotels@),
                views(hotel_ids@) == suiting_ids(favorite, hotels@.take(i as int)),
                hotel_ids@.len() <= limit,
            ensures
                i == hotels@.len() || hotel_ids@.len() == limit,
                i <= hotels@.len(),
                views(hotel_ids@) == suiting_ids(favorite, hotels@.take(i as int)),
                hotel_ids@.len() <= limit,
            decreases hotels.len() - i,
        {
            if hotel_ids.len() == limit {
                break;
            }
            let hotel = &hotels[i];
            proof {
                assert(hotels@.take(i + 1).drop_last() =~= hotels@.take(i as int));
            }
            if Self::check_satisfy(favorite, hotel.provide) {
                hotel_ids.push(hotel.id.clone());
            }
            proof {
                assert(views(hotel_ids@) =~= suiting_ids(favorite, hotels@.take(i + 1)));
            }
            i = i + 1;
        }
        proof {
            let all = suiting_ids(favorite, hotels@);
            lemma_suiting_ids_prefix(favorite, hotels@, i as int);
            if hotel_ids@.len() == limit {
                assert(all.take(limit as int) =~= views(hotel_ids@));
            } else {
                assert(i == hotels@.len());
                assert(hotels@.take(i as int) =~= hotels@);
                assert(all.take(all.len() as int) =~= all);
            }
        }
        hotel_ids
    }

    /// Whether the rate-plan scan can examine its hotels: it cannot check a
    /// hotel whose feature number is the smallest `i64`, and fails on
    /// reaching one before the plan is full.
    pub fn rate_plan_checkable(favorite: i64, req_num: i64, hotels: &Vec<HotelFeature>) -> (r: bool)
        ensures
            r == examined_checkable(favorite, req_num, hotels@),
    {
        let limit: usize = req_num as usize;
        let mut found: usize = 0;
        let mut i: usize = 0;
        while i < hotels.len()
            invariant
                i <= hotels@.len(),
                limit == req_num as usize,
                found == suiting_ids(favorite, hotels@.take(i as int)).len(),
                found <= limit,
                forall|k: int|
                    0 <= k < i && suiting_ids(favorite, hotels@.take(k)).len() < limit
                        ==> #[trigger] hotels@[k].provide > i64::MIN,
            ensures
                i == hotels@.len() || found == limit,
                i <= hotels@.len(),
                found == suiting_ids(favorite, hotels@.take(i as int)).len(),
                forall|k: int|
                    0 <= k < i && suiting_ids(favorite, hotels@.take(k)).len() < limit
                        ==> #[trigger] hotels@[k].provide > i64::MIN,
            decreases hotels.len() - i,
        {
            if found == limit {
                break;
            }
            let hotel = &hotels[i];
            if hotel.provide == i64::MIN {
                assert(suiting_ids(favorite, hotels@.take(i as int)).len() < limit);
                assert(!(hotels@[i as int].provide > i64::MIN));
                return false;
            }
            proof {
                assert(hotels@.take(i + 1).drop_last() =~= hotels@.take(i as int));
            }
            if Self::check_satisfy(favorite, hotel.provide) {
                found = found + 1;
            }
            i = i + 1;
        }
        proof {
            assert forall|k: int|
                0 <= k < hotels@.len() && suiting_ids(favorite, hotels@.take(k)).len() < (req_num as usize)
                implies #[trigger] hotels@[k].provide > i64::MIN by {
                if k >= i {
                    lemma_suiting_ids_len_monotone(favorite, hotels@, i as int, k);
                }
            }
        }
        true
    }
}

/// The rate service as a stand-alone service; it decides as `RateService`
/// does.
pub struct RateServiceImpl {
    pub name: String,
}

impl RateServiceImpl {
    /// Checks if a hotel satisfies the user's requirement.
    pub fn check_satisfy(favorite: i64, provide: i64) -> (r: bool)
        requires
            provide > i64::MIN,
        ensures
            r == satisfies(favorite, provide),
    {
        RateService::check_satisfy(favorite, provide)
    }
}

} // verus!
