//! Properties of the library as a whole.
use vstd::prelude::*;
use vstd::relations::*;
use crate::cache::{fill_count, group, items_under, pushed, pushed_all, taken};
use crate::geo::{nearby_count, nearest_first, peeked, ranks_before};
use crate::order::{id_order, lemma_str_le_total_ordering};
use crate::profile::Comment;
use crate::rate::{rate_plan, satisfies, suiting_ids, HotelFeature};
use crate::order::{lex_le, str_le};
use crate::document::{
    comment_fields, parsed_comments, parsed_hotels, datetime_display, datetime_field, double_field, hex_lower, hotel_fields, int64_field,
    object_id_field, str_field, user_fields, AccessError, BsonField,
};
use crate::profile::text_weight;
use crate::recommendation::popularity;
use crate::recommendation::{lemma_popularity_nonneg, popular_ids};

verus! {

/// Adding an item under a key puts it after that key's items and leaves the
/// other keys' items as they were.
pub proof fn law_push_then_group<V>(m: Map<Seq<char>, Seq<V>>, k: Seq<char>, v: V, other: Seq<char>)
    ensures
        group(pushed(m, k, v), k) == group(m, k).push(v),
        other != k ==> group(pushed(m, k, v), other) == group(m, other),
{
}

/// Filling a cache keeps, for every key, the items added under it in the
/// order they came.
pub proof fn law_fill_keeps_order<V>(m: Map<Seq<char>, Seq<V>>, s: Seq<(Seq<char>, V)>, k: Seq<char>)
    ensures
        group(pushed_all(m, s), k) == group(m, k) + items_under(s, k),
    decreases s.len(),
{
    if s.len() == 0 {
        assert(group(m, k) + Seq::<V>::empty() =~= group(m, k));
    } else {
        law_fill_keeps_order(m, s.drop_last(), k);
        if s.last().0 == k {
            assert(group(m, k) + items_under(s.drop_last(), k).push(s.last().1) =~= (group(m, k)
                + items_under(s.drop_last(), k)).push(s.last().1));
        }
    }
}

/// Taking the items under a key leaves it with none, and the other keys as
/// they were.
pub proof fn law_take_empties<V>(m: Map<Seq<char>, Seq<V>>, k: Seq<char>, other: Seq<char>)
    ensures
        group(taken(m, k), k) == Seq::<V>::empty(),
        other != k ==> group(taken(m, k), other) == group(m, other),
{
}

proof fn lemma_peek_keeps_others<V>(m: Map<Seq<char>, Seq<V>>, ids: Seq<Seq<char>>, k: Seq<char>)
    ensures
        ids.contains(k) ==> group(peeked(m, ids).1, k) == Seq::<V>::empty(),
        !ids.contains(k) ==> group(peeked(m, ids).1, k) == group(m, k),
    decreases ids.len(),
{
    if ids.len() > 0 {
        lemma_peek_keeps_others(m, ids.drop_last(), k);
        if ids.contains(k) && ids.last() != k {
            let i: int = choose|i: int| 0 <= i < ids.len() && ids[i] == k;
            assert(ids.drop_last()[i] == k);
        }
        if !ids.contains(k) {
            assert(!ids.drop_last().contains(k)) by {
                if ids.drop_last().contains(k) {
                    let i: int = choose|i: int| 0 <= i < ids.drop_last().len() && ids.drop_last()[i] == k;
                    assert(ids[i] == k);
                }
            }
        }
    }
}

proof fn lemma_peek_of_emptied<V>(m: Map<Seq<char>, Seq<V>>, ids: Seq<Seq<char>>)
    requires
        forall|i: int| 0 <= i < ids.len() ==> group(m, #[trigger] ids[i]) == Seq::<V>::empty(),
    ensures
        peeked(m, ids).0 == Seq::<V>::empty(),
        peeked(m, ids).1 == m,
    decreases ids.len(),
{
    if ids.len() > 0 {
        let rest = ids.drop_last();
        assert forall|i: int| 0 <= i < rest.len() implies group(m, #[trigger] rest[i]) == Seq::<V>::empty() by {
            assert(rest[i] == ids[i]);
        }
        lemma_peek_of_emptied(m, rest);
        let k = ids.last();
        assert(group(m, k) == Seq::<V>::empty());
        assert(Seq::<V>::empty() + Seq::<V>::empty() =~= Seq::<V>::empty());
        if m.contains_key(k) {
            assert(m.insert(k, Seq::empty()) =~= m);
        }
    }
}

/// Peeking at the same hotels twice: the second peek hands out nothing and
/// leaves the cache as the first left it.
pub proof fn law_peek_twice<V>(m: Map<Seq<char>, Seq<V>>, ids: Seq<Seq<char>>)
    ensures
        peeked(peeked(m, ids).1, ids).0 == Seq::<V>::empty(),
        peeked(peeked(m, ids).1, ids).1 == peeked(m, ids).1,
{
    let m1 = peeked(m, ids).1;
    assert forall|i: int| 0 <= i < ids.len() implies group(m1, #[trigger] ids[i]) == Seq::<V>::empty() by {
        lemma_peek_keeps_others(m, ids, ids[i]);
    }
    lemma_peek_of_emptied(m1, ids);
}

/// A user with no favourite feature is suited by every hotel.
pub proof fn law_no_favorite_suits_all(provide: i64)
    ensures
        satisfies(0, provide),
{
}

/// With the popularity threshold at zero, every hotel of the rate plan is
/// popular enough to be recommended.
pub proof fn law_all_rate_plan_ids_popular(ids: Seq<Seq<char>>, cs: Seq<Comment>)
    ensures
        popular_ids(ids, cs) == ids,
    decreases ids.len(),
{
    if ids.len() > 0 {
        law_all_rate_plan_ids_popular(ids.drop_last(), cs);
        lemma_popularity_nonneg(cs, ids.last());
        assert(ids.drop_last().push(ids.last()) =~= ids);
    }
}

/// Two sorted sequences holding the same items are the same sequence: the
/// sorted output of the recommendation is fully determined by its items.
pub proof fn law_sorted_unique(a: Seq<Seq<char>>, b: Seq<Seq<char>>)
    requires
        sorted_by(a, id_order()),
        sorted_by(b, id_order()),
        a.to_multiset() == b.to_multiset(),
    ensures
        a == b,
    decreases a.len(),
{
    broadcast use vstd::seq_lib::group_to_multiset_ensures;

    lemma_str_le_total_ordering();
    let r = id_order();
    if a.len() == 0 {
        assert(b.to_multiset().len() == 0);
        assert(b.len() == 0);
        assert(a =~= b);
    } else {
        assert(a.to_multiset().len() == a.len());
        assert(b.to_multiset().len() == b.len());
        assert(b.len() == a.len());
        assert(a.contains(a[0]));
        assert(a.to_multiset().contains(a[0]));
        assert(b.contains(a[0]));
        assert(b.contains(b[0]));
        assert(b.to_multiset().contains(b[0]));
        assert(a.contains(b[0]));
        let ib: int = choose|i: int| 0 <= i < b.len() && b[i] == a[0];
        let ia: int = choose|i: int| 0 <= i < a.len() && a[i] == b[0];
        if ib > 0 {
            assert(r(b[0], b[ib]));
        } else {
            assert(r(b[0], b[0]));
        }
        if ia > 0 {
            assert(r(a[0], a[ia]));
        } else {
            assert(r(a[0], a[0]));
        }
        assert(a[0] == b[0]);
        let a1 = a.remove(0);
        let b1 = b.remove(0);
        assert(a1.to_multiset() == b1.to_multiset());
        assert forall|i: int, j: int| 0 <= i < j < a1.len() implies #[trigger] r(a1[i], a1[j]) by {
            assert(r(a[i + 1], a[j + 1]));
        }
        assert forall|i: int, j: int| 0 <= i < j < b1.len() implies #[trigger] r(b1[i], b1[j]) by {
            assert(r(b[i + 1], b[j + 1]));
        }
        law_sorted_unique(a1, b1);
        assert(a =~= b) by {
            assert forall|i: int| 0 <= i < a.len() implies a[i] == b[i] by {
                if i > 0 {
                    assert(a1[i - 1] == b1[i - 1]);
                }
            }
        }
    }
}

/// A cache fill writes no more items than it is given, all of them when the
/// size is negative or at least their number, and at least one when there
/// is one.
pub proof fn law_fill_count(n: int, siz: int)
    requires
        n >= 0,
    ensures
        0 <= fill_count(n, siz) <= n,
        siz < 0 || siz >= n ==> fill_count(n, siz) == n,
        n > 0 ==> fill_count(n, siz) >= 1,
        0 <= siz < n ==> fill_count(n, siz) == if siz >= 1 {
            siz
        } else {
            1
        },
{
}

/// The nearby ranking is determined by the keys: two rankings that both list
/// the nearest hotels first are the same.
pub proof fn law_nearby_ranking_unique(keys: Seq<u64>, nearby_num: int, r1: Seq<usize>, r2: Seq<usize>)
    requires
        nearest_first(keys, nearby_num, r1),
        nearest_first(keys, nearby_num, r2),
    ensures
        r1 == r2,
{
    assert forall|a: int| 0 <= a < r1.len() implies r1[a] == r2[a] by {
        lemma_ranking_agrees_upto(keys, nearby_num, r1, r2, a);
    }
    assert(r1 =~= r2);
}

proof fn lemma_ranking_agrees_upto(keys: Seq<u64>, nearby_num: int, r1: Seq<usize>, r2: Seq<usize>, a: int)
    requires
        nearest_first(keys, nearby_num, r1),
        nearest_first(keys, nearby_num, r2),
        0 <= a < r1.len(),
    ensures
        forall|c: int| 0 <= c <= a ==> r1[c] == r2[c],
    decreases a,
{
    if a > 0 {
        lemma_ranking_agrees_upto(keys, nearby_num, r1, r2, a - 1);
    }
    let x: usize = r1[a];
    let y: usize = r2[a];
    if x != y {
        if ranks_before(keys, x as int, y as int) {
            if r2.contains(x) {
                let b: int = choose|b: int| 0 <= b < r2.len() && r2[b] == x;
                if b > a {
                    assert(ranks_before(keys, r2[a] as int, r2[b] as int));
                }
                assert(b < a);
                assert(r1[b] == r2[b]);
                assert(ranks_before(keys, r1[b] as int, r1[a] as int));
            } else {
                assert(x < keys.len());
                assert(!r2.contains((x as int) as usize));
                assert(ranks_before(keys, r2[a] as int, x as int));
            }
        } else {
            assert(ranks_before(keys, y as int, x as int));
            if r1.contains(y) {
                let b: int = choose|b: int| 0 <= b < r1.len() && r1[b] == y;
                if b > a {
                    assert(ranks_before(keys, r1[a] as int, r1[b] as int));
                }
                assert(b < a);
                assert(r1[b] == r2[b]);
                assert(ranks_before(keys, r2[b] as int, r2[a] as int));
            } else {
                assert(y < keys.len());
                assert(!r1.contains((y as int) as usize));
                assert(ranks_before(keys, r1[a] as int, y as int));
            }
        }
    }
}

/// What the recommendation returns: the rate plan's hotel ids, sorted in
/// ascending byte-wise order (every hotel passes the popularity threshold).
pub proof fn law_recommendation_is_sorted_rate_plan(
    r: Seq<Seq<char>>,
    ids: Seq<Seq<char>>,
    cs: Seq<Comment>,
)
    requires
        sorted_by(r, id_order()),
        r.to_multiset() == popular_ids(ids, cs).to_multiset(),
    ensures
        r == ids.sort_by(id_order()),
{
    lemma_str_le_total_ordering();
    law_all_rate_plan_ids_popular(ids, cs);
    ids.lemma_sort_by_ensures(id_order());
    law_sorted_unique(r, ids.sort_by(id_order()));
}

/// Two recommendations agree whenever their rate plans hold the same ids,
/// whatever the order of those ids, the comments (in any order) or the
/// distances: `r1` and `r2` are any two results as `simple_recommend`
/// describes them, a description in which the distances play no part.
pub proof fn law_recommendation_inputs(
    r1: Seq<Seq<char>>,
    r2: Seq<Seq<char>>,
    ids1: Seq<Seq<char>>,
    ids2: Seq<Seq<char>>,
    cs1: Seq<Comment>,
    cs2: Seq<Comment>,
)
    requires
        sorted_by(r1, id_order()),
        r1.to_multiset() == popular_ids(ids1, cs1).to_multiset(),
        sorted_by(r2, id_order()),
        r2.to_multiset() == popular_ids(ids2, cs2).to_multiset(),
        ids1.to_multiset() == ids2.to_multiset(),
    ensures
        r1 == r2,
{
    law_all_rate_plan_ids_popular(ids1, cs1);
    law_all_rate_plan_ids_popular(ids2, cs2);
    law_sorted_unique(r1, r2);
}

/// For a user with favourite features, a hotel suits exactly when the bit
/// of its feature (counted from 1, wrapping around the 64 bits) is set in the
/// favourite mask.
pub proof fn law_satisfies_is_feature_bit(favorite: i64, provide: i64)
    requires
        favorite != 0,
    ensures
        satisfies(favorite, provide) <==> (favorite as u64) & (1u64 << (((provide as int - 1) % 64) as u64))
            != 0,
{
    let k: u64 = ((provide as int - 1) % 64) as u64;
    let x: u64 = favorite as u64;
    assert(((x >> k) & 1 == 1) <==> (x & (1u64 << k) != 0)) by (bit_vector)
        requires
            k < 64,
    ;
}

/// Adding favourite features never makes a suiting hotel stop suiting (for
/// a user who has favourites).
pub proof fn law_more_favorites_still_suit(favorite: i64, more: i64, provide: i64)
    requires
        favorite != 0,
        satisfies(favorite, provide),
    ensures
        satisfies(favorite | more, provide),
{
    let k: u64 = ((provide as int - 1) % 64) as u64;
    let x: u64 = favorite as u64;
    let y: u64 = more as u64;
    assert(((favorite | more) as u64) == x | y) by (bit_vector)
        requires
            x == favorite as u64,
            y == more as u64,
    ;
    assert(((x >> k) & 1 == 1) ==> (((x | y) >> k) & 1 == 1)) by (bit_vector)
        requires
            k < 64,
    ;
}

/// The suiting ids of two runs of hotels, one after the other, are those of
/// the first followed by those of the second; one hotel contributes its id
/// exactly when it suits.
pub proof fn law_suiting_ids_concat(favorite: i64, a: Seq<HotelFeature>, b: Seq<HotelFeature>)
    ensures
        suiting_ids(favorite, a + b) == suiting_ids(favorite, a) + suiting_ids(favorite, b),
    decreases b.len(),
{
    if b.len() == 0 {
        assert(a + b =~= a);
        assert(suiting_ids(favorite, a) + Seq::<Seq<char>>::empty() =~= suiting_ids(favorite, a));
    } else {
        law_suiting_ids_concat(favorite, a, b.drop_last());
        assert((a + b).drop_last() =~= a + b.drop_last());
        assert((a + b).last() == b.last());
        if satisfies(favorite, b.last().provide) {
            assert(suiting_ids(favorite, a) + suiting_ids(favorite, b.drop_last()).push(b.last().id@)
                =~= (suiting_ids(favorite, a) + suiting_ids(favorite, b.drop_last())).push(b.last().id@));
        }
    }
}

/// One hotel's suiting ids: its own id when it suits, else none.
pub proof fn law_suiting_ids_single(favorite: i64, h: HotelFeature)
    ensures
        suiting_ids(favorite, seq![h]) == if satisfies(favorite, h.provide) {
            seq![h.id@]
        } else {
            Seq::<Seq<char>>::empty()
        },
{
    assert(seq![h].drop_last() =~= Seq::<HotelFeature>::empty());
    assert(seq![h].last() == h);
    assert(suiting_ids(favorite, Seq::<HotelFeature>::empty()) == Seq::<Seq<char>>::empty());
    assert(Seq::<Seq<char>>::empty().push(h.id@) =~= seq![h.id@]);
}

/// Ids are compared byte by byte: the first differing byte decides, by its
/// numeric value; a prefix comes first.
pub proof fn law_byte_order(x: u8, y: u8, s: Seq<u8>, t: Seq<u8>)
    ensures
        x != y ==> lex_le(seq![x] + s, seq![y] + t) == (x < y),
        lex_le(seq![x] + s, seq![x] + t) == lex_le(s, t),
        lex_le(Seq::<u8>::empty(), t),
        !lex_le(seq![x] + s, Seq::<u8>::empty()),
{
    assert((seq![x] + s)[0] == x);
    assert((seq![y] + t)[0] == y);
    assert((seq![x] + s).drop_first() =~= s);
    assert((seq![x] + t).drop_first() =~= t);
    assert((seq![x] + t)[0] == x);
}

/// A popularity over two runs of comments is the sum of theirs; one comment
/// adds the byte length of its text to its own hotel only.
pub proof fn law_popularity_concat(a: Seq<Comment>, b: Seq<Comment>, id: Seq<char>)
    ensures
        popularity(a + b, id) == popularity(a, id) + popularity(b, id),
    decreases b.len(),
{
    if b.len() > 0 {
        law_popularity_concat(a, b.drop_last(), id);
        assert((a + b).drop_last() =~= a + b.drop_last());
        assert((a + b).last() == b.last());
    } else {
        assert(a + b =~= a);
    }
}

/// One comment's contribution to a hotel's popularity.
pub proof fn law_popularity_single(c: Comment, id: Seq<char>)
    ensures
        popularity(seq![c], id) == if c.hotel_id@ == id {
            text_weight(c)
        } else {
            0
        },
        text_weight(c) == (vstd::utf8::encode_utf8(c.text@).len() as usize) as int,
{
    assert(seq![c].drop_last() =~= Seq::<Comment>::empty());
    assert(seq![c].last() == c);
    assert(popularity(Seq::<Comment>::empty(), id) == 0);
}

/// A nearby search returns as many hotels as asked for, or all of them when
/// there are fewer.
pub proof fn law_nearby_count(n: int, k: int)
    requires
        0 <= n,
    ensures
        0 <= k && n <= k ==> nearby_count(n, k) == n,
        0 <= k && k < n ==> nearby_count(n, k) == k,
        n == 0 ==> nearby_count(n, k) == 0,
{
}

/// Hotels rank by key, nearer first; hotels with equal keys keep their order.
pub proof fn law_ranks_before(keys: Seq<u64>, a: int, b: int)
    ensures
        keys[a] < keys[b] ==> ranks_before(keys, a, b),
        keys[a] > keys[b] ==> !ranks_before(keys, a, b),
        keys[a] == keys[b] ==> (ranks_before(keys, a, b) <==> a < b),
{
}

/// Reading a field sees what was stored under its key, whatever else the
/// document holds.
pub proof fn law_field_reads(f: Map<Seq<char>, BsonField>, k: Seq<char>, other: Seq<char>, v: BsonField, s: String, b: [u8; 12], m: i64, n: i64)
    ensures
        !f.contains_key(k) ==> str_field(f, k) == Err::<Seq<char>, AccessError>(AccessError::NotPresent),
        !f.contains_key(k) ==> object_id_field(f, k) == Err::<Seq<u8>, AccessError>(AccessError::NotPresent),
        !f.contains_key(k) ==> datetime_field(f, k) == Err::<i64, AccessError>(AccessError::NotPresent),
        !f.contains_key(k) ==> int64_field(f, k) == Err::<i64, AccessError>(AccessError::NotPresent),
        !f.contains_key(k) ==> double_field(f, k) == Err::<(), AccessError>(AccessError::NotPresent),
        str_field(f.insert(k, BsonField::Str(s)), k) == Ok::<Seq<char>, AccessError>(s@),
        object_id_field(f.insert(k, BsonField::ObjectId(b)), k) == Ok::<Seq<u8>, AccessError>(b@),
        datetime_field(f.insert(k, BsonField::DateTime(m)), k) == Ok::<i64, AccessError>(m),
        int64_field(f.insert(k, BsonField::Int64(n)), k) == Ok::<i64, AccessError>(n),
        double_field(f.insert(k, BsonField::Double), k) == Ok::<(), AccessError>(()),
        str_field(f.insert(k, BsonField::Int64(n)), k) == Err::<Seq<char>, AccessError>(AccessError::UnexpectedType),
        datetime_field(f.insert(k, BsonField::Str(s)), k) == Err::<i64, AccessError>(AccessError::UnexpectedType),
        object_id_field(f.insert(k, BsonField::Str(s)), k) == Err::<Seq<u8>, AccessError>(AccessError::UnexpectedType),
        int64_field(f.insert(k, BsonField::Double), k) == Err::<i64, AccessError>(AccessError::UnexpectedType),
        double_field(f.insert(k, BsonField::Int64(n)), k) == Err::<(), AccessError>(AccessError::UnexpectedType),
        other != k ==> str_field(f.insert(other, v), k) == str_field(f, k),
        other != k ==> datetime_field(f.insert(other, v), k) == datetime_field(f, k),
        other != k ==> object_id_field(f.insert(other, v), k) == object_id_field(f, k),
        other != k ==> int64_field(f.insert(other, v), k) == int64_field(f, k),
        other != k ==> double_field(f.insert(other, v), k) == double_field(f, k),
{
}

/// A stored comment reads when each of its five fields reads, and then its
/// id is the hex text of the stored object id, its date the display of the
/// stored date-time itself, and its other fields the stored strings.
pub proof fn law_comment_reads(f: Map<Seq<char>, BsonField>)
    ensures
        comment_fields(f) is Ok <==> (object_id_field(f, "_id"@) is Ok && str_field(f, "hotel_id"@) is Ok
            && str_field(f, "text"@) is Ok && datetime_field(f, "date"@) is Ok && str_field(
            f,
            "author_id"@,
        ) is Ok),
        comment_fields(f) matches Ok(v) ==> {
            &&& object_id_field(f, "_id"@) matches Ok(id) && v.0 == hex_lower(id)
            &&& str_field(f, "hotel_id"@) == Ok::<Seq<char>, AccessError>(v.1)
            &&& str_field(f, "text"@) == Ok::<Seq<char>, AccessError>(v.2)
            &&& datetime_field(f, "date"@) matches Ok(m) && v.3 == datetime_display(m)
            &&& str_field(f, "author_id"@) == Ok::<Seq<char>, AccessError>(v.4)
        },
{
}

/// A stored hotel reads when its id, name, coordinates and feature read; then
/// its id is the hex text of the stored object id and its name and feature
/// the stored values.
pub proof fn law_hotel_reads(f: Map<Seq<char>, BsonField>)
    ensures
        hotel_fields(f) is Ok <==> (object_id_field(f, "_id"@) is Ok && str_field(f, "name"@) is Ok
            && double_field(f, "latitude"@) is Ok && double_field(f, "longitude"@) is Ok && int64_field(
            f,
            "provide"@,
        ) is Ok),
        hotel_fields(f) matches Ok(v) ==> {
            &&& object_id_field(f, "_id"@) matches Ok(id) && v.0 == hex_lower(id)
            &&& str_field(f, "name"@) == Ok::<Seq<char>, AccessError>(v.1)
            &&& int64_field(f, "provide"@) == Ok::<i64, AccessError>(v.2)
        },
{
}

/// A stored user reads when its id, name, password and favourites read; then
/// they are the stored values, the id as hex text.
pub proof fn law_user_reads(f: Map<Seq<char>, BsonField>)
    ensures
        user_fields(f) is Ok <==> (object_id_field(f, "_id"@) is Ok && str_field(f, "username"@) is Ok
            && str_field(f, "password"@) is Ok && int64_field(f, "favorite"@) is Ok),
        user_fields(f) matches Ok(v) ==> {
            &&& object_id_field(f, "_id"@) matches Ok(id) && v.0 == hex_lower(id)
            &&& str_field(f, "username"@) == Ok::<Seq<char>, AccessError>(v.1)
            &&& str_field(f, "password"@) == Ok::<Seq<char>, AccessError>(v.2)
            &&& int64_field(f, "favorite"@) == Ok::<i64, AccessError>(v.3)
        },
{
}

/// The hex text of bytes has two digits per byte, the high nibble first, in
/// lower case.
pub proof fn law_hex_lower(bytes: Seq<u8>, i: int)
    requires
        0 <= i < bytes.len(),
    ensures
        hex_lower(bytes).len() == 2 * bytes.len(),
        hex_lower(bytes)[2 * i] as int == if bytes[i] / 16 < 10 {
            48 + bytes[i] / 16
        } else {
            87 + bytes[i] / 16
        },
        hex_lower(bytes)[2 * i + 1] as int == if bytes[i] % 16 < 10 {
            48 + bytes[i] % 16
        } else {
            87 + bytes[i] % 16
        },
    decreases bytes.len(),
{
    lemma_hex_lower_len(bytes);
    if i < bytes.len() - 1 {
        law_hex_lower(bytes.drop_last(), i);
        lemma_hex_lower_len(bytes.drop_last());
        assert(bytes.drop_last()[i] == bytes[i]);
    }
}

proof fn lemma_hex_lower_len(bytes: Seq<u8>)
    ensures
        hex_lower(bytes).len() == 2 * bytes.len(),
    decreases bytes.len(),
{
    if bytes.len() > 0 {
        lemma_hex_lower_len(bytes.drop_last());
    }
}

/// Strings starting with different ASCII characters are ordered by those
/// characters' codes; a string comes before any of its extensions; and the
/// order of ids is this order.
pub proof fn law_string_order(x: char, y: char, s: Seq<char>, t: Seq<char>)
    requires
        (x as u32) < 128,
        (y as u32) < 128,
    ensures
        x != y ==> str_le(seq![x] + s, seq![y] + t) == ((x as u32) < (y as u32)),
        str_le(s, s + t),
        id_order()(s, t) == str_le(s, t),
{
    lemma_encode_ascii_first(x, s);
    lemma_encode_ascii_first(y, t);
    law_byte_order(x as u8, y as u8, vstd::utf8::encode_utf8(s), vstd::utf8::encode_utf8(t));
    lemma_encode_concat(s, t);
    lemma_lex_le_prefix(vstd::utf8::encode_utf8(s), vstd::utf8::encode_utf8(t));
}

proof fn lemma_encode_ascii_first(x: char, s: Seq<char>)
    requires
        (x as u32) < 128,
    ensures
        vstd::utf8::encode_utf8(seq![x] + s) == seq![x as u8] + vstd::utf8::encode_utf8(s),
{
    let u: u32 = x as u32;
    assert((seq![x] + s)[0] == x);
    assert((seq![x] + s).drop_first() =~= s);
    assert(((u & 0x7F) as u8) == (u as u8)) by (bit_vector)
        requires
            u < 128,
    ;
    assert(vstd::utf8::encode_scalar(u) =~= seq![x as u8]);
}

proof fn lemma_encode_concat(s: Seq<char>, t: Seq<char>)
    ensures
        vstd::utf8::encode_utf8(s + t) == vstd::utf8::encode_utf8(s) + vstd::utf8::encode_utf8(t),
    decreases s.len(),
{
    if s.len() == 0 {
        assert(s + t =~= t);
        assert(Seq::<u8>::empty() + vstd::utf8::encode_utf8(t) =~= vstd::utf8::encode_utf8(t));
    } else {
        lemma_encode_concat(s.drop_first(), t);
        assert((s + t)[0] == s[0]);
        assert((s + t).drop_first() =~= s.drop_first() + t);
        let e = vstd::utf8::encode_scalar(s[0] as u32);
        assert(e + (vstd::utf8::encode_utf8(s.drop_first()) + vstd::utf8::encode_utf8(t)) =~= (e
            + vstd::utf8::encode_utf8(s.drop_first())) + vstd::utf8::encode_utf8(t));
    }
}

proof fn lemma_lex_le_prefix(a: Seq<u8>, b: Seq<u8>)
    ensures
        lex_le(a, a + b),
    decreases a.len(),
{
    if a.len() > 0 {
        lemma_lex_le_prefix(a.drop_first(), b);
        assert((a + b)[0] == a[0]);
        assert((a + b).drop_first() =~= a.drop_first() + b);
    }
}

/// Filling with two runs of items is filling with the first, then the
/// second; filling with one item adds it under its key.
pub proof fn law_pushed_all_concat<V>(m: Map<Seq<char>, Seq<V>>, a: Seq<(Seq<char>, V)>, b: Seq<(Seq<char>, V)>, x: (Seq<char>, V))
    ensures
        pushed_all(m, a + b) == pushed_all(pushed_all(m, a), b),
        pushed_all(m, seq![x]) == pushed(m, x.0, x.1),
    decreases b.len(),
{
    assert(seq![x].drop_last() =~= Seq::<(Seq<char>, V)>::empty());
    assert(seq![x].last() == x);
    assert(pushed_all(m, Seq::<(Seq<char>, V)>::empty()) == m);
    if b.len() == 0 {
        assert(a + b =~= a);
    } else {
        law_pushed_all_concat(m, a, b.drop_last(), x);
        assert((a + b).drop_last() =~= a + b.drop_last());
        assert((a + b).last() == b.last());
    }
}

/// The items under a key of two runs are those of the first followed by
/// those of the second; one item counts exactly under its own key.
pub proof fn law_items_under_concat<V>(a: Seq<(Seq<char>, V)>, b: Seq<(Seq<char>, V)>, x: (Seq<char>, V), k: Seq<char>)
    ensures
        items_under(a + b, k) == items_under(a, k) + items_under(b, k),
        items_under(seq![x], k) == if x.0 == k {
            seq![x.1]
        } else {
            Seq::<V>::empty()
        },
    decreases b.len(),
{
    assert(seq![x].drop_last() =~= Seq::<(Seq<char>, V)>::empty());
    assert(seq![x].last() == x);
    assert(items_under(Seq::<(Seq<char>, V)>::empty(), k) == Seq::<V>::empty());
    assert(Seq::<V>::empty().push(x.1) =~= seq![x.1]);
    if b.len() == 0 {
        assert(a + b =~= a);
        assert(items_under(a, k) + Seq::<V>::empty() =~= items_under(a, k));
    } else {
        law_items_under_concat(a, b.drop_last(), x, k);
        assert((a + b).drop_last() =~= a + b.drop_last());
        assert((a + b).last() == b.last());
        if b.last().0 == k {
            assert(items_under(a, k) + items_under(b.drop_last(), k).push(b.last().1) =~= (items_under(
                a,
                k,
            ) + items_under(b.drop_last(), k)).push(b.last().1));
        }
    }
}

/// Peeking at two runs of ids is peeking at the first, then at the second
/// on the cache the first left; peeking at one id hands out its items and
/// takes them out.
pub proof fn law_peek_concat<V>(m: Map<Seq<char>, Seq<V>>, a: Seq<Seq<char>>, b: Seq<Seq<char>>, k: Seq<char>)
    ensures
        peeked(m, a + b).0 == peeked(m, a).0 + peeked(peeked(m, a).1, b).0,
        peeked(m, a + b).1 == peeked(peeked(m, a).1, b).1,
        peeked(m, seq![k]) == (group(m, k), taken(m, k)),
    decreases b.len(),
{
    assert(seq![k].drop_last() =~= Seq::<Seq<char>>::empty());
    assert(seq![k].last() == k);
    assert(Seq::<V>::empty() + group(m, k) =~= group(m, k));
    assert(peeked(m, Seq::<Seq<char>>::empty()) == (Seq::<V>::empty(), m));
    if b.len() == 0 {
        assert(a + b =~= a);
        assert(peeked(m, a).0 + Seq::<V>::empty() =~= peeked(m, a).0);
    } else {
        law_peek_concat(m, a, b.drop_last(), k);
        assert((a + b).drop_last() =~= a + b.drop_last());
        assert((a + b).last() == b.last());
        let m1 = peeked(m, a).1;
        let g = group(peeked(m1, b.drop_last()).1, b.last());
        assert(peeked(m, a).0 + peeked(m1, b.drop_last()).0 + g =~= peeked(m, a).0 + (peeked(
            m1,
            b.drop_last(),
        ).0 + g));
    }
}

/// The comments read from two runs of documents are those of the first
/// followed by those of the second; one document gives its comment exactly
/// when it reads as one.
pub proof fn law_parsed_comments_concat(a: Seq<mongodb::bson::Document>, b: Seq<mongodb::bson::Document>, d: mongodb::bson::Document)
    ensures
        parsed_comments(a + b) == parsed_comments(a) + parsed_comments(b),
        parsed_comments(seq![d]) == match comment_fields(crate::document::document_fields(d)) {
            Ok(v) => seq![v],
            Err(_) => Seq::empty(),
        },
    decreases b.len(),
{
    assert(seq![d].drop_last() =~= Seq::<mongodb::bson::Document>::empty());
    assert(seq![d].last() == d);
    assert(parsed_comments(Seq::<mongodb::bson::Document>::empty()) =~= Seq::empty());
    if let Ok(v) = comment_fields(crate::document::document_fields(d)) {
        assert(Seq::empty().push(v) =~= seq![v]);
    }
    if b.len() == 0 {
        assert(a + b =~= a);
        assert(parsed_comments(a) + Seq::empty() =~= parsed_comments(a));
    } else {
        law_parsed_comments_concat(a, b.drop_last(), d);
        assert((a + b).drop_last() =~= a + b.drop_last());
        assert((a + b).last() == b.last());
        if let Ok(v) = comment_fields(crate::document::document_fields(b.last())) {
            assert(parsed_comments(a) + parsed_comments(b.drop_last()).push(v) =~= (parsed_comments(a)
                + parsed_comments(b.drop_last())).push(v));
        }
    }
}

/// The hotels read from two runs of documents are those of the first
/// followed by those of the second; one document gives its id and feature
/// exactly when it reads as a hotel.
pub proof fn law_parsed_hotels_concat(a: Seq<mongodb::bson::Document>, b: Seq<mongodb::bson::Document>, d: mongodb::bson::Document)
    ensures
        parsed_hotels(a + b) == parsed_hotels(a) + parsed_hotels(b),
        parsed_hotels(seq![d]) == match hotel_fields(crate::document::document_fields(d)) {
            Ok(v) => seq![(v.0, v.2)],
            Err(_) => Seq::empty(),
        },
    decreases b.len(),
{
    assert(seq![d].drop_last() =~= Seq::<mongodb::bson::Document>::empty());
    assert(seq![d].last() == d);
    assert(parsed_hotels(Seq::<mongodb::bson::Document>::empty()) =~= Seq::empty());
    if let Ok(v) = hotel_fields(crate::document::document_fields(d)) {
        assert(Seq::empty().push((v.0, v.2)) =~= seq![(v.0, v.2)]);
    }
    if b.len() == 0 {
        assert(a + b =~= a);
        assert(parsed_hotels(a) + Seq::empty() =~= parsed_hotels(a));
    } else {
        law_parsed_hotels_concat(a, b.drop_last(), d);
        assert((a + b).drop_last() =~= a + b.drop_last());
        assert((a + b).last() == b.last());
        if let Ok(v) = hotel_fields(crate::document::document_fields(b.last())) {
            assert(parsed_hotels(a) + parsed_hotels(b.drop_last()).push((v.0, v.2)) =~= (parsed_hotels(a)
                + parsed_hotels(b.drop_last())).push((v.0, v.2)));
        }
    }
}

/// The rate plan holds ids of suiting hotels, in order, none skipped: it is
/// the start of the suiting ids, `req_num` of them (taken as a `usize`), or
/// all when fewer suit.
pub proof fn law_rate_plan(favorite: i64, req_num: i64, hotels: Seq<HotelFeature>)
    ensures
        rate_plan(favorite, req_num, hotels).len() == if suiting_ids(favorite, hotels).len() <= (req_num as usize) {
            suiting_ids(favorite, hotels).len() as int
        } else {
            (req_num as usize) as int
        },
        rate_plan(favorite, req_num, hotels).is_prefix_of(suiting_ids(favorite, hotels)),
        req_num == 0 ==> rate_plan(favorite, req_num, hotels) == Seq::<Seq<char>>::empty(),
{
    let r = rate_plan(favorite, req_num, hotels);
    if req_num == 0 {
        assert(r =~= Seq::<Seq<char>>::empty());
    }
}

} // verus!
