use hotel_reservation::cache::GroupCache;
use hotel_reservation::config::{NEARBY_NUM, POP_THRESHOLD, RECOMM_NUM};
use hotel_reservation::document::{
    doc_to_hotel_fields, doc_to_user_fields, hotel_features_from_documents, hotel_id_of, AccessError,
};
use hotel_reservation::geo::{nearby, peek_info, rank_nearby};
use hotel_reservation::order::{bytes_le, sort_strings, string_le};
use hotel_reservation::profile::{Comment, ProfileServiceImpl};
use hotel_reservation::rate::{HotelFeature, RateService, RateServiceImpl};
use hotel_reservation::recommendation::RecommService;
use hotel_reservation::research::{HotelDistance, ReschService};
use hotel_reservation::reservation::ReservService;
use hotel_reservation::user::{seed_step, UserError, UserService};
use mongodb::bson::oid::ObjectId;
use mongodb::bson::{DateTime, Document};

fn s(x: &str) -> String {
    x.to_string()
}

fn comment(id: &str, hotel: &str, text: &str) -> Comment {
    Comment {
        id: s(id),
        hotel_id: s(hotel),
        text: s(text),
        date: s("d"),
        author_id: s("a"),
    }
}

fn feature(id: &str, provide: i64) -> HotelFeature {
    HotelFeature { id: s(id), provide }
}

#[test]
fn constants_hold_their_values() {
    assert_eq!(RECOMM_NUM, 100);
    assert_eq!(POP_THRESHOLD, 0);
    assert_eq!(NEARBY_NUM, 100);
}

#[test]
fn check_satisfy_without_favorite_accepts_everything() {
    assert!(RateService::check_satisfy(0, 1));
    assert!(RateService::check_satisfy(0, 17));
    assert!(RateService::check_satisfy(0, i64::MAX));
}

#[test]
fn check_satisfy_reads_the_feature_bit() {
    // feature 3 is bit 2
    assert!(RateService::check_satisfy(0b100, 3));
    assert!(!RateService::check_satisfy(0b100, 2));
    assert!(!RateService::check_satisfy(0b100, 4));
    assert!(RateService::check_satisfy(0b1, 1));
}

#[test]
fn check_satisfy_wraps_the_bit_index() {
    // feature 65 is bit 64 mod 64 = 0
    assert!(RateService::check_satisfy(1, 65));
    // feature 0 is bit -1 mod 64 = 63
    assert!(RateService::check_satisfy(i64::MIN, 0));
    assert!(!RateService::check_satisfy(1, 0));
    // the sign bit of a negative mask
    assert!(RateService::check_satisfy(-1, 64));
    assert!(!RateService::check_satisfy(i64::MAX, 64));
}

#[test]
fn get_rate_plan_takes_the_first_suiting_hotels() {
    let hotels = vec![feature("h1", 1), feature("h2", 2), feature("h3", 1), feature("h4", 1)];
    let r = RateService::get_rate_plan(0b1, 2, &hotels);
    assert_eq!(r, vec![s("h1"), s("h3")]);
}

#[test]
fn get_rate_plan_with_zero_request_is_empty() {
    let hotels = vec![feature("h1", 1)];
    assert!(RateService::get_rate_plan(0, 0, &hotels).is_empty());
}

#[test]
fn get_rate_plan_with_negative_request_has_no_limit() {
    let hotels = vec![feature("h1", 1), feature("h2", 2), feature("h3", 1)];
    let r = RateService::get_rate_plan(0, -1, &hotels);
    assert_eq!(r, vec![s("h1"), s("h2"), s("h3")]);
}

#[test]
fn get_rate_plan_returns_fewer_when_few_suit() {
    let hotels = vec![feature("h1", 2), feature("h2", 2), feature("h3", 1)];
    let r = RateService::get_rate_plan(0b1, 100, &hotels);
    assert_eq!(r, vec![s("h3")]);
}

#[test]
fn bytes_le_is_lexicographic() {
    assert!(bytes_le(b"abc", b"abd"));
    assert!(!bytes_le(b"abd", b"abc"));
    assert!(bytes_le(b"ab", b"abc"));
    assert!(!bytes_le(b"abc", b"ab"));
    assert!(bytes_le(b"", b""));
    assert!(bytes_le(b"same", b"same"));
}

#[test]
fn string_le_compares_bytes() {
    assert!(string_le(&s("Z"), &s("a")));
    assert!(string_le(&s("z"), &s("é")));
    assert!(!string_le(&s("é"), &s("z")));
}

#[test]
fn sort_strings_orders_by_bytes() {
    let r = sort_strings(vec![s("é"), s("z"), s("Z"), s("b"), s("b")]);
    assert_eq!(r, vec![s("Z"), s("b"), s("b"), s("z"), s("é")]);
    assert!(sort_strings(Vec::new()).is_empty());
}

#[test]
fn popularity_sums_byte_lengths() {
    let comments = vec![comment("c1", "h1", "héllo"), comment("c2", "h2", "xx"), comment("c3", "h1", "abc")];
    assert_eq!(RecommService::popularity_of(&comments, &s("h1")), 9);
    assert_eq!(RecommService::popularity_of(&comments, &s("h2")), 2);
    assert_eq!(RecommService::popularity_of(&comments, &s("h3")), 0);
}

#[test]
fn simple_recommend_sorts_the_rate_plan() {
    let ids = vec![s("h3"), s("h1"), s("h2")];
    let distances: Vec<HotelDistance<f64>> = vec![HotelDistance { hotel_id: s("h1"), distance: 1.5 }];
    let comments = vec![comment("c1", "h2", "nice")];
    let r = RecommService::simple_recommend(&ids, &distances, &comments);
    assert_eq!(r, vec![s("h1"), s("h2"), s("h3")]);
}

#[test]
fn simple_recommend_of_nothing_is_nothing() {
    let distances: Vec<HotelDistance<f64>> = Vec::new();
    let r = RecommService::simple_recommend(&Vec::new(), &distances, &Vec::new());
    assert!(r.is_empty());
}

#[test]
fn rate_plan_favorite_defaults_to_zero() {
    assert_eq!(RecommService::rate_plan_favorite(Some(6)), 6);
    assert_eq!(RecommService::rate_plan_favorite(None), 0);
}

#[test]
fn nearby_ids_keep_their_order() {
    let list = vec![
        HotelDistance { hotel_id: s("b"), distance: 2.0 },
        HotelDistance { hotel_id: s("a"), distance: 1.0 },
    ];
    assert_eq!(RecommService::nearby_ids(&list), vec![s("b"), s("a")]);
}

#[test]
fn resch_nearby_pairs_ids_with_distances() {
    let ids = vec![s("a"), s("b"), s("c")];
    let distances = vec![1.0_f64, 2.5, 3.0];
    let r = ReschService::resch_nearby(2, &ids, &distances);
    assert_eq!(r.len(), 2);
    assert_eq!(r[0].hotel_id, "a");
    assert_eq!(r[0].distance, 1.0);
    assert_eq!(r[1].hotel_id, "b");
    assert_eq!(r[1].distance, 2.5);
    assert!(ReschService::resch_nearby(0, &ids, &distances).is_empty());
}

#[test]
fn rank_nearby_orders_by_key_then_position() {
    let keys = vec![5, 1, 5, 0];
    assert_eq!(rank_nearby(&keys, 3), vec![3, 1, 0]);
    assert_eq!(rank_nearby(&keys, 10), vec![3, 1, 0, 2]);
    assert!(rank_nearby(&keys, 0).is_empty());
}

#[test]
fn rank_nearby_of_no_hotels_accepts_any_count() {
    assert!(rank_nearby(&Vec::new(), -1).is_empty());
    assert!(rank_nearby(&Vec::new(), 5).is_empty());
}

#[test]
fn nearby_reports_count_ids_and_positions() {
    let ids = vec![s("far"), s("near"), s("mid")];
    let keys = vec![30, 10, 20];
    let (count, got, order) = nearby(&ids, &keys, 2);
    assert_eq!(count, 2);
    assert_eq!(got, vec![s("near"), s("mid")]);
    assert_eq!(order, vec![1, 2]);
}

#[test]
fn cache_push_get_take() {
    let mut cache: GroupCache<i32> = GroupCache::new();
    assert_eq!(cache.len(), 0);
    cache.push(s("a"), 1);
    cache.push(s("b"), 2);
    cache.push(s("a"), 3);
    assert_eq!(cache.len(), 2);
    assert_eq!(cache.get(&s("a")), Some(&vec![1, 3]));
    assert_eq!(cache.get(&s("c")), None);
    assert_eq!(cache.take(&s("a")), vec![1, 3]);
    assert_eq!(cache.get(&s("a")), Some(&Vec::new()));
    assert_eq!(cache.take(&s("a")), Vec::<i32>::new());
    assert_eq!(cache.take(&s("zzz")), Vec::<i32>::new());
    assert_eq!(cache.len(), 2);
}

#[test]
fn cache_all_with_negative_size_takes_everything() {
    let mut cache: GroupCache<i32> = GroupCache::new();
    let items = vec![(s("a"), 1), (s("b"), 2), (s("a"), 3)];
    assert_eq!(cache.cache_all(items, -1), 3);
    assert_eq!(cache.get(&s("a")), Some(&vec![1, 3]));
    assert_eq!(cache.get(&s("b")), Some(&vec![2]));
}

#[test]
fn cache_all_stops_at_size() {
    let mut cache: GroupCache<i32> = GroupCache::new();
    let items = vec![(s("a"), 1), (s("b"), 2), (s("a"), 3)];
    assert_eq!(cache.cache_all(items, 2), 2);
    assert_eq!(cache.get(&s("a")), Some(&vec![1]));
    assert_eq!(cache.get(&s("b")), Some(&vec![2]));
}

#[test]
fn cache_all_with_zero_size_writes_one() {
    let mut cache: GroupCache<i32> = GroupCache::new();
    let items = vec![(s("a"), 1), (s("b"), 2)];
    assert_eq!(cache.cache_all(items, 0), 1);
    assert_eq!(cache.len(), 1);
    let mut empty: GroupCache<i32> = GroupCache::new();
    assert_eq!(empty.cache_all(Vec::new(), 0), 0);
}

#[test]
fn fill_keeps_the_order_of_items_per_key() {
    let mut cache: GroupCache<i32> = GroupCache::new();
    cache.push(s("a"), 0);
    cache.cache_all(vec![(s("a"), 1), (s("b"), 9), (s("a"), 2), (s("a"), 3)], -1);
    assert_eq!(cache.get(&s("a")), Some(&vec![0, 1, 2, 3]));
}

#[test]
fn peek_info_hands_out_and_empties() {
    let mut cache: GroupCache<i32> = GroupCache::new();
    cache.push(s("a"), 1);
    cache.push(s("b"), 2);
    cache.push(s("a"), 3);
    let first = peek_info(&mut cache, &vec![s("a"), s("missing"), s("a"), s("b")]);
    assert_eq!(first, vec![1, 3, 2]);
    assert_eq!(cache.get(&s("a")), Some(&Vec::new()));
}

#[test]
fn peek_info_twice_hands_out_nothing_the_second_time() {
    let mut cache: GroupCache<i32> = GroupCache::new();
    cache.push(s("a"), 1);
    cache.push(s("b"), 2);
    let ids = vec![s("b"), s("a")];
    assert_eq!(peek_info(&mut cache, &ids), vec![2, 1]);
    assert!(peek_info(&mut cache, &ids).is_empty());
    assert_eq!(cache.len(), 2);
}

fn comment_doc(with_id: bool) -> Document {
    let mut d = Document::new();
    if with_id {
        d.insert("_id", ObjectId::from_bytes([0, 1, 2, 3, 4, 5, 6, 7, 8, 9, 10, 255]));
    }
    d.insert("hotel_id", "h1");
    d.insert("text", "great stay");
    d.insert("date", DateTime::from_millis(0));
    d.insert("author_id", "u7");
    d
}

#[test]
fn doc_to_comment_reads_all_fields() {
    let c = ProfileServiceImpl::doc_to_comment(&comment_doc(true)).unwrap();
    assert_eq!(c.id, "000102030405060708090aff");
    assert_eq!(c.hotel_id, "h1");
    assert_eq!(c.text, "great stay");
    assert_eq!(c.date, DateTime::from_millis(0).to_string());
    assert!(c.date.starts_with("1970-01-01"));
    assert_eq!(c.author_id, "u7");
}

#[test]
fn doc_to_comment_reports_a_missing_field() {
    let r = ProfileServiceImpl::doc_to_comment(&comment_doc(false));
    assert_eq!(r.unwrap_err(), AccessError::NotPresent);
}

#[test]
fn doc_to_comment_reports_a_field_of_another_type() {
    let mut d = comment_doc(true);
    d.insert("text", 42_i64);
    assert_eq!(ProfileServiceImpl::doc_to_comment(&d).unwrap_err(), AccessError::UnexpectedType);
}

#[test]
fn doc_to_comment_reports_the_first_failing_field() {
    let mut d = comment_doc(false);
    d.insert("hotel_id", 3_i64);
    assert_eq!(ProfileServiceImpl::doc_to_comment(&d).unwrap_err(), AccessError::NotPresent);
    let mut e = comment_doc(true);
    e.insert("date", "not a date");
    e.remove("author_id");
    assert_eq!(ProfileServiceImpl::doc_to_comment(&e).unwrap_err(), AccessError::UnexpectedType);
}

#[test]
fn comments_from_documents_skips_unreadable_ones() {
    let docs = vec![comment_doc(true), comment_doc(false), comment_doc(true)];
    let r = ProfileServiceImpl::comments_from_documents(&docs);
    assert_eq!(r.len(), 2);
    assert_eq!(r[1].hotel_id, "h1");
}

#[test]
fn cache_comments_groups_by_hotel_and_counts() {
    let mut d2 = comment_doc(true);
    d2.insert("hotel_id", "h2");
    let docs = vec![comment_doc(true), comment_doc(false), d2, comment_doc(true)];
    let mut cache: GroupCache<Comment> = GroupCache::new();
    assert_eq!(ProfileServiceImpl::cache_comments(&mut cache, &docs, -1), 3);
    assert_eq!(cache.get(&s("h1")).unwrap().len(), 2);
    assert_eq!(cache.get(&s("h2")).unwrap().len(), 1);
    let mut small: GroupCache<Comment> = GroupCache::new();
    assert_eq!(ProfileServiceImpl::cache_comments(&mut small, &docs, 2), 2);
    assert_eq!(small.get(&s("h1")).unwrap().len(), 1);
    assert_eq!(small.get(&s("h2")).unwrap().len(), 1);
}

#[test]
fn retrieve_comments_by_hotel_copies_on_hit() {
    let mut cache: GroupCache<Comment> = GroupCache::new();
    cache.push(s("h1"), comment("c1", "h1", "ok"));
    let got = ProfileServiceImpl::retrieve_comments_by_hotel(&cache, &s("h1")).unwrap();
    assert_eq!(got.len(), 1);
    assert_eq!(got[0].id, "c1");
    assert_eq!(got[0].text, "ok");
    assert!(ProfileServiceImpl::retrieve_comments_by_hotel(&cache, &s("h2")).is_none());
    assert_eq!(cache.get(&s("h1")).unwrap().len(), 1);
}

#[test]
fn comment_duplicate_copies_every_field() {
    let c = comment("c1", "h1", "text");
    let d = c.duplicate();
    assert_eq!(d.id, c.id);
    assert_eq!(d.hotel_id, c.hotel_id);
    assert_eq!(d.text, c.text);
    assert_eq!(d.date, c.date);
    assert_eq!(d.author_id, c.author_id);
}

#[test]
fn check_user_accepts_the_right_password() {
    assert_eq!(UserService::check_user(Some(&s("pw")), &s("pw")), Ok(true));
}

#[test]
fn check_user_refuses_a_wrong_password() {
    assert_eq!(UserService::check_user(Some(&s("pw")), &s("nope")), Err(UserError::IncorrectPassword));
}

#[test]
fn check_user_refuses_an_unknown_user() {
    assert_eq!(UserService::check_user(None, &s("pw")), Err(UserError::NotFound));
}

#[test]
fn user_error_messages() {
    assert_eq!(UserError::NotFound.message(), "{username} not Found!");
    assert_eq!(UserError::IncorrectPassword.message(), "Incorrect Password!");
}

#[test]
fn get_user_profile_answers_with_what_was_found() {
    assert_eq!(UserService::get_user_profile(Some(5)), Ok(Some(5)));
    assert_eq!(UserService::get_user_profile::<i32>(None), Err(UserError::NotFound));
}

#[test]
fn reservation_replies() {
    assert_eq!(ReservService::make_reservation(), vec![s("hotel_make_reservation")]);
    assert_eq!(ReservService::check_availability(), vec![s("hotel_check_availability")]);
}

#[test]
fn stand_alone_rate_service_decides_the_same() {
    assert!(RateServiceImpl::check_satisfy(0b10, 2));
    assert!(!RateServiceImpl::check_satisfy(0b10, 1));
    assert!(RateServiceImpl::check_satisfy(0, 9));
}

#[test]
fn sorting_two_orders_of_the_same_ids_gives_one_result() {
    let a = sort_strings(vec![s("h2"), s("h10"), s("h1")]);
    let b = sort_strings(vec![s("h1"), s("h2"), s("h10")]);
    assert_eq!(a, b);
    assert_eq!(a, vec![s("h1"), s("h10"), s("h2")]);
}

#[test]
fn rank_nearby_keeps_ties_in_their_order() {
    let keys = vec![7, 7, 7, 1];
    assert_eq!(rank_nearby(&keys, 4), vec![3, 0, 1, 2]);
    assert_eq!(rank_nearby(&keys, 2), vec![3, 0]);
}

#[test]
fn get_rate_plan_stops_before_an_uncheckable_hotel() {
    let hotels = vec![feature("h1", 1), feature("h2", i64::MIN)];
    assert!(RateService::rate_plan_checkable(0, 1, &hotels));
    assert_eq!(RateService::get_rate_plan(0, 1, &hotels), vec![s("h1")]);
    assert!(!RateService::rate_plan_checkable(0, 2, &hotels));
    assert!(!RateService::rate_plan_checkable(0, -1, &hotels));
    assert!(RateService::rate_plan_checkable(0, 0, &hotels));
}

#[test]
fn popularity_checked_reports_overflow() {
    let comments = vec![comment("c1", "h1", "abc"), comment("c2", "h2", "de")];
    assert_eq!(RecommService::popularity_checked(&comments, &s("h1")), Some(3));
    assert_eq!(RecommService::popularity_checked(&comments, &s("h9")), Some(0));
    assert!(RecommService::popularities_fit(&comments));
    assert!(RecommService::popularities_fit(&Vec::new()));
}

#[test]
fn recommendation_ignores_order_comments_and_distances() {
    let d1: Vec<HotelDistance<f64>> = vec![HotelDistance { hotel_id: s("h1"), distance: f64::NAN }];
    let d2: Vec<HotelDistance<f64>> = vec![
        HotelDistance { hotel_id: s("h2"), distance: 3.0 },
        HotelDistance { hotel_id: s("h3"), distance: 0.5 },
    ];
    let c1 = vec![comment("c1", "h1", "long text"), comment("c2", "h3", "x")];
    let c2 = vec![comment("c2", "h3", "x"), comment("c1", "h1", "long text")];
    let r1 = RecommService::simple_recommend(&vec![s("h3"), s("h1"), s("h2")], &d1, &c1);
    let r2 = RecommService::simple_recommend(&vec![s("h2"), s("h3"), s("h1")], &d2, &c2);
    assert_eq!(r1, r2);
    assert_eq!(r1, vec![s("h1"), s("h2"), s("h3")]);
}

fn hotel_doc(last: u8, provide: i64) -> Document {
    let mut d = Document::new();
    d.insert("_id", ObjectId::from_bytes([0, 0, 0, 0, 0, 0, 0, 0, 0, 0, 0, last]));
    d.insert("name", "Inn");
    d.insert("latitude", 22.3_f64);
    d.insert("longitude", 114.2_f64);
    d.insert("provide", provide);
    d
}

#[test]
fn doc_to_hotel_fields_reads_id_name_and_provide() {
    let (id, name, provide) = doc_to_hotel_fields(&hotel_doc(0xab, 3)).unwrap();
    assert_eq!(id, "0000000000000000000000ab");
    assert_eq!(name, "Inn");
    assert_eq!(provide, 3);
}

#[test]
fn doc_to_hotel_fields_needs_float_coordinates() {
    let mut d = hotel_doc(1, 3);
    d.insert("latitude", 22_i64);
    assert_eq!(doc_to_hotel_fields(&d).unwrap_err(), AccessError::UnexpectedType);
    let mut e = hotel_doc(1, 3);
    e.remove("longitude");
    e.insert("provide", "three");
    assert_eq!(doc_to_hotel_fields(&e).unwrap_err(), AccessError::NotPresent);
    let mut f = hotel_doc(1, 3);
    f.insert("provide", 2.5_f64);
    assert_eq!(doc_to_hotel_fields(&f).unwrap_err(), AccessError::UnexpectedType);
}

#[test]
fn hotel_features_from_documents_keeps_readable_hotels_in_order() {
    let mut bad = hotel_doc(2, 5);
    bad.remove("name");
    let docs = vec![hotel_doc(1, 4), bad, hotel_doc(3, 6)];
    let r = hotel_features_from_documents(&docs);
    assert_eq!(r.len(), 2);
    assert_eq!(r[0].id, "000000000000000000000001");
    assert_eq!(r[0].provide, 4);
    assert_eq!(r[1].id, "000000000000000000000003");
    assert_eq!(r[1].provide, 6);
}

#[test]
fn hotel_id_of_reads_the_object_id() {
    assert_eq!(hotel_id_of(&hotel_doc(0x10, 1)).unwrap(), "000000000000000000000010");
    assert_eq!(hotel_id_of(&Document::new()).unwrap_err(), AccessError::NotPresent);
    let mut d = Document::new();
    d.insert("_id", "not an id");
    assert_eq!(hotel_id_of(&d).unwrap_err(), AccessError::UnexpectedType);
}

#[test]
fn doc_to_user_fields_reads_credentials_and_favorite() {
    let mut d = Document::new();
    d.insert("_id", ObjectId::from_bytes([255; 12]));
    d.insert("username", "user_1");
    d.insert("password", "secret");
    d.insert("favorite", 5_i64);
    let (id, username, password, favorite) = doc_to_user_fields(&d).unwrap();
    assert_eq!(id, "ffffffffffffffffffffffff");
    assert_eq!(username, "user_1");
    assert_eq!(password, "secret");
    assert_eq!(favorite, 5);
    d.insert("favorite", "Unknown");
    assert_eq!(doc_to_user_fields(&d).unwrap_err(), AccessError::UnexpectedType);
    d.remove("password");
    assert_eq!(doc_to_user_fields(&d).unwrap_err(), AccessError::NotPresent);
}

#[test]
fn seed_step_keeps_names_distinct() {
    let mut seen = Vec::new();
    assert!(seed_step(&mut seen, s("user_a")));
    assert!(seed_step(&mut seen, s("user_b")));
    assert!(!seed_step(&mut seen, s("user_a")));
    assert_eq!(seen, vec![s("user_a"), s("user_b")]);
}
