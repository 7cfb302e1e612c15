//! The recommendation algorithm.
use vstd::prelude::*;
use vstd::relations::sorted_by;
use crate::config::POP_THRESHOLD;
use crate::order::{id_order, sort_strings, views};
use crate::profile::{text_weight, Comment};
use crate::research::HotelDistance;

verus! {

/// Popularity of a hotel: the total byte length of the texts of the
/// comments written about it.
pub open spec fn popularity(cs: Seq<Comment>, id: Seq<char>) -> int
    decreases cs.len(),
{
    if cs.len() == 0 {
        0
    } else {
        popularity(cs.drop_last(), id) + if cs.last().hotel_id@ == id {
            text_weight(cs.last())
        } else {
            0
        }
    }
}

/// The ids, in their order, whose popularity reaches the threshold.
pub open spec fn popular_ids(ids: Seq<Seq<char>>, cs: Seq<Comment>) -> Seq<Seq<char>>
    decreases ids.len(),
{
    if ids.len() == 0 {
        Seq::empty()
    } else if popularity(cs, ids.last()) >= POP_THRESHOLD {
        popular_ids(ids.drop_last(), cs).push(ids.last())
    } else {
        popular_ids(ids.drop_last(), cs)
    }
}

/// Popularity never decreases as comments are added.
pub proof fn lemma_popularity_prefix(cs: Seq<Comment>, id: Seq<char>, i: int)
    requires
        0 <= i <= cs.len(),
    ensures
        0 <= popularity(cs.take(i), id) <= popularity(cs, id),
    decreases cs.len(),
{
    if i == cs.len() {
        assert(cs.take(i) =~= cs);
        lemma_popularity_nonneg(cs, id);
    } else {
        lemma_popularity_prefix(cs.drop_last(), id, i);
        assert(cs.drop_last().take(i) =~= cs.take(i));
    }
}

pub proof fn lemma_popularity_nonneg(cs: Seq<Comment>, id: Seq<char>)
    ensures
        popularity(cs, id) >= 0,
    decreases cs.len(),
{
    if cs.len() > 0 {
        lemma_popularity_nonneg(cs.drop_last(), id);
    }
}

/// Every hotel's popularity fits in an `i64`.
pub open spec fn popularities_fit(cs: Seq<Comment>) -> bool {
    forall|id: Seq<char>| #[trigger] popularity(cs, id) <= i64::MAX
}

/// A hotel no comment is about has no popularity.
pub proof fn lemma_popularity_unmentioned(cs: Seq<Comment>, id: Seq<char>)
    requires
        forall|i: int| 0 <= i < cs.len() ==> (#[trigger] cs[i]).hotel_id@ != id,
    ensures
        popularity(cs, id) == 0,
    decreases cs.len(),
{
    if cs.len() > 0 {
        let rest = cs.drop_last();
        assert forall|i: int| 0 <= i < rest.len() implies (#[trigger] rest[i]).hotel_id@ != id by {
            assert(rest[i] == cs[i]);
        }
        lemma_popularity_unmentioned(rest, id);
        assert(cs.last() == cs[cs.len() - 1]);
    }
}

/// The recommendation service.
pub struct RecommService {
    pub name: String,
}

impl RecommService {
    /// Popularity of the hotel `id` among `comments`.
    pub fn popularity_of(comments: &Vec<Comment>, id: &String) -> (r: i64)
        requires
            popularity(comments@, id@) <= i64::MAX,
        ensures
            r == popularity(comments@, id@),
    {
        let mut sum: i64 = 0;
        let mut i: usize = 0;
        while i < comments.len()
            invariant
                i <= comments@.len(),
                popularity(comments@, id@) <= i64::MAX,
                sum == popularity(comments@.take(i as int), id@),
            decreases comments.len() - i,
        {
            let c = &comments[i];
            assert(*c == comments@[i as int]);
            proof {
                let pre = comments@.take(i as int);
                let next = comments@.take(i + 1);
                assert(next.drop_last() =~= pre);
                assert(next.last() == comments@[i as int]);
                assert(popularity(next, id@) == popularity(pre, id@) + if comments@[i as int].hotel_id@
                    == id@ {
                    text_weight(comments@[i as int])
                } else {
                    0
                });
                lemma_popularity_prefix(comments@, id@, i + 1);
                lemma_popularity_prefix(comments@, id@, i as int);
            }
            if c.hotel_id == *id {
                let text = c.text.as_str();
                let w: usize = text.len();
                assert(text@ == c.text@);
                assert(w == text_weight(*c));
                sum = sum + w as i64;
            }
            i = i + 1;
        }
        proof {
            assert(comments@.take(comments@.len() as int) =~= comments@);
        }
        sum
    }

    /// Popularity of the hotel `id` among `comments`, or `None` when it
    /// does not fit in an `i64`.
    pub fn popularity_checked(comments: &Vec<Comment>, id: &String) -> (r: Option<i64>)
        ensures
            r is Some <==> popularity(comments@, id@) <= i64::MAX,
            r matches Some(p) ==> p == popularity(comments@, id@),
    {
        let mut sum: i64 = 0;
        let mut i: usize = 0;
        while i < comments.len()
            invariant
                i <= comments@.len(),
                sum == popularity(comments@.take(i as int), id@),
            decreases comments.len() - i,
        {
            let c = &comments[i];
            assert(*c == comments@[i as int]);
            proof {
                let pre = comments@.take(i as int);
                let next = comments@.take(i + 1);
                assert(next.drop_last() =~= pre);
                assert(next.last() == comments@[i as int]);
                lemma_popularity_prefix(comments@, id@, i + 1);
                lemma_popularity_prefix(comments@, id@, i as int);
            }
            if c.hotel_id == *id {
                let text = c.text.as_str();
                let w: usize = text.len();
                assert(text@ == c.text@);
                assert(w == text_weight(*c));
                if w as u64 > i64::MAX as u64 {
                    return None;
                }
                match sum.checked_add(w as i64) {
                    Some(t) => {
                        sum = t;
                    },
                    None => {
                        return None;
                    },
                }
            }
            i = i + 1;
        }
        proof {
            assert(comments@.take(comments@.len() as int) =~= comments@);
        }
        Some(sum)
    }

    /// Whether every hotel's popularity among `comments` fits in an `i64`.
    pub fn popularities_fit(comments: &Vec<Comment>) -> (r: bool)
        ensures
            r == popularities_fit(comments@),
    {
        let mut i: usize = 0;
        while i < comments.len()
            invariant
                i <= comments@.len(),
                forall|k: int| 0 <= k < i ==> popularity(comments@, (#[trigger] comments@[k]).hotel_id@) <= i64::MAX,
            decreases comments.len() - i,
        {
            if Self::popularity_checked(comments, &comments[i].hotel_id).is_none() {
                return false;
            }
            i = i + 1;
        }
        proof {
            assert forall|id: Seq<char>| #[trigger] popularity(comments@, id) <= i64::MAX by {
                if exists|k: int| 0 <= k < comments@.len() && (#[trigger] comments@[k]).hotel_id@ == id {
                    let k = choose|k: int| 0 <= k < comments@.len() && (#[trigger] comments@[k]).hotel_id@ == id;
                    assert(popularity(comments@, comments@[k].hotel_id@) <= i64::MAX);
                } else {
                    lemma_popularity_unmentioned(comments@, id);
                }
            }
        }
        true
    }

    /// The favourite features to ask the rate service about: the user's, or
    /// none when there is no user profile.
    pub fn rate_plan_favorite(user_favorite: Option<i64>) -> (r: i64)
        ensures
            r == match user_favorite {
                Some(f) => f,
                None => 0,
            },
    {
        match user_favorite {
            Some(f) => f,
            None => 0,
        }
    }

    /// The ids of the nearby hotels, in order.
    pub fn nearby_ids<D>(hotel_distance_list: &Vec<HotelDistance<D>>) -> (r: Vec<String>)
        ensures
            r@.len() == hotel_distance_list@.len(),
            forall|i: int| 0 <= i < r@.len() ==> (#[trigger] r@[i])@ == hotel_distance_list@[i].hotel_id@,
    {
        let mut ids: Vec<String> = Vec::new();
        let mut i: usize = 0;
        while i < hotel_distance_list.len()
            invariant
                i <= hotel_distance_list@.len(),
                ids@.len() == i,
                forall|k: int| 0 <= k < i ==> (#[trigger] ids@[k])@ == hotel_distance_list@[k].hotel_id@,
            decreases hotel_distance_list.len() - i,
        {
            ids.push(hotel_distance_list[i].hotel_id.clone());
            i = i + 1;
        }
        ids
    }

    /// Recommends, in ascending order, the hotels of the rate plan whose
    /// popularity among `comments` reaches the threshold. The distances are
    /// not taken into account.
    pub fn simple_recommend<D>(
        rate_plan_ids: &Vec<String>,
        hotel_distance_list: &Vec<HotelDistance<D>>,
        comments: &Vec<Comment>,
    ) -> (r: Vec<String>)
        requires
            popularities_fit(comments@),
        ensures
            sorted_by(views(r@), id_order()),
            views(r@).to_multiset() == popular_ids(views(rate_plan_ids@), comments@).to_multiset(),
            views(r@) == views(rate_plan_ids@).sort_by(id_order()),
    {
        let mut recommended_ids: Vec<String> = Vec::new();
        let mut i: usize = 0;
        while i < rate_plan_ids.len()
            invariant
                i <= rate_plan_ids@.len(),
                popularities_fit(comments@),
                views(recommended_ids@) == popular_ids(views(rate_plan_ids@.take(i as int)), comments@),
            decreases rate_plan_ids.len() - i,
        {
            let hotel_id = &rate_plan_ids[i];
            let popularity: i64 = Self::popularity_of(comments, hotel_id);
            proof {
                assert(views(rate_plan_ids@.take(i + 1)).drop_last() =~= views(rate_plan_ids@.take(i as int)));
            }
            if popularity >= POP_THRESHOLD {
                recommended_ids.push(hotel_id.clone());
            }
            proof {
                assert(views(recommended_ids@) =~= popular_ids(views(rate_plan_ids@.take(i + 1)), comments@));
            }
            i = i + 1;
        }
        proof {
            assert(rate_plan_ids@.take(rate_plan_ids@.len() as int) =~= rate_plan_ids@);
        }
        let sorted = sort_strings(recommended_ids);
        proof {
            crate::laws::law_recommendation_is_sorted_rate_plan(
                views(sorted@),
                views(rate_plan_ids@),
                comments@,
            );
        }
        sorted
    }
}

} // verus!
