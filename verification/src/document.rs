//! Reading stored records: typed field access on BSON documents, and the
//! conversion of a comment document.
use vstd::prelude::*;
use mongodb::bson::oid::ObjectId;
use mongodb::bson::document::ValueAccessError;
use mongodb::bson::{DateTime, Document};
use crate::cache::{pushed, pushed_all, GroupCache};
use crate::profile::{Comment, ProfileServiceImpl};
use crate::rate::HotelFeature;

verus! {

#[verifier::external_type_specification]
#[verifier::external_body]
pub struct ExDocument(Document);

/// Why a typed field access failed.
#[derive(Debug, Clone, Copy, PartialEq, Eq, Structural)]
pub enum AccessError {
    /// No field has the key.
    NotPresent,
    /// The field holds a value of another type.
    UnexpectedType,
}

/// What a document field holds, as far as the services read it.
pub enum BsonField {
    Str(String),
    ObjectId([u8; 12]),
    DateTime(i64),
    Int64(i64),
    /// A floating-point number, whose value the library does not hold.
    Double,
    Other,
}

/// The fields of a document, by key.
pub uninterp spec fn document_fields(d: Document) -> Map<Seq<char>, BsonField>;

/// Text shown for a BSON date-time given in milliseconds since the Unix
/// epoch.
pub uninterp spec fn datetime_display(millis: i64) -> Seq<char>;

/// The string held under `key`.
pub open spec fn str_field(f: Map<Seq<char>, BsonField>, key: Seq<char>) -> Result<Seq<char>, AccessError> {
    if !f.contains_key(key) {
        Err(AccessError::NotPresent)
    } else {
        match f[key] {
            BsonField::Str(s) => Ok(s@),
            _ => Err(AccessError::UnexpectedType),
        }
    }
}

/// The object id held under `key`.
pub open spec fn object_id_field(f: Map<Seq<char>, BsonField>, key: Seq<char>) -> Result<Seq<u8>, AccessError> {
    if !f.contains_key(key) {
        Err(AccessError::NotPresent)
    } else {
        match f[key] {
            BsonField::ObjectId(b) => Ok(b@),
            _ => Err(AccessError::UnexpectedType),
        }
    }
}

/// The date-time held under `key`, in milliseconds.
pub open spec fn datetime_field(f: Map<Seq<char>, BsonField>, key: Seq<char>) -> Result<i64, AccessError> {
    if !f.contains_key(key) {
        Err(AccessError::NotPresent)
    } else {
        match f[key] {
            BsonField::DateTime(m) => Ok(m),
            _ => Err(AccessError::UnexpectedType),
        }
    }
}

/// The 64-bit integer held under `key`.
pub open spec fn int64_field(f: Map<Seq<char>, BsonField>, key: Seq<char>) -> Result<i64, AccessError> {
    if !f.contains_key(key) {
        Err(AccessError::NotPresent)
    } else {
        match f[key] {
            BsonField::Int64(v) => Ok(v),
            _ => Err(AccessError::UnexpectedType),
        }
    }
}

/// Whether a floating-point number is held under `key`.
pub open spec fn double_field(f: Map<Seq<char>, BsonField>, key: Seq<char>) -> Result<(), AccessError> {
    if !f.contains_key(key) {
        Err(AccessError::NotPresent)
    } else {
        match f[key] {
            BsonField::Double => Ok(()),
            _ => Err(AccessError::UnexpectedType),
        }
    }
}

/// Lower-case hexadecimal digit of a nibble.
pub open spec fn hex_digit(n: int) -> char {
    if n < 10 {
        (('0' as int) + n) as char
    } else {
        (('a' as int) + n - 10) as char
    }
}

/// Lower-case hexadecimal text of bytes, two digits per byte, high nibble
/// first.
pub open spec fn hex_lower(bytes: Seq<u8>) -> Seq<char>
    decreases bytes.len(),
{
    if bytes.len() == 0 {
        Seq::empty()
    } else {
        hex_lower(bytes.drop_last()).push(hex_digit((bytes.last() / 16) as int)).push(
            hex_digit((bytes.last() % 16) as int),
        )
    }
}

/// `Document::get_str`: the string under `key` if there is one, `NotPresent`
/// if the key is absent, `UnexpectedType` if it holds something else.
#[verifier::external_body]
fn document_get_str(d: &Document, key: &str) -> (r: Result<String, AccessError>)
    ensures
        match str_field(document_fields(*d), key@) {
            Ok(s) => r matches Ok(t) && t@ == s,
            Err(e) => r == Err::<String, AccessError>(e),
        },
{
    match d.get_str(key) {
        Ok(s) => Ok(s.to_owned()),
        Err(ValueAccessError::NotPresent) => Err(AccessError::NotPresent),
        Err(_) => Err(AccessError::UnexpectedType),
    }
}

/// `Document::get_object_id`: the object id under `key`, as its twelve
/// bytes, with the same errors as `document_get_str`.
#[verifier::external_body]
fn document_get_object_id(d: &Document, key: &str) -> (r: Result<[u8; 12], AccessError>)
    ensures
        match object_id_field(document_fields(*d), key@) {
            Ok(b) => r matches Ok(t) && t@ == b,
            Err(e) => r == Err::<[u8; 12], AccessError>(e),
        },
{
    match d.get_object_id(key) {
        Ok(oid) => Ok(oid.bytes()),
        Err(ValueAccessError::NotPresent) => Err(AccessError::NotPresent),
        Err(_) => Err(AccessError::UnexpectedType),
    }
}

/// `Document::get_datetime`: the date-time under `key`, in milliseconds
/// since the Unix epoch, with the same errors as `document_get_str`.
#[verifier::external_body]
fn document_get_datetime(d: &Document, key: &str) -> (r: Result<i64, AccessError>)
    ensures
        r == datetime_field(document_fields(*d), key@),
{
    match d.get_datetime(key) {
        Ok(dt) => Ok(dt.timestamp_millis()),
        Err(ValueAccessError::NotPresent) => Err(AccessError::NotPresent),
        Err(_) => Err(AccessError::UnexpectedType),
    }
}

/// `Document::get_i64`: the 64-bit integer under `key`, with the same
/// errors as `document_get_str`.
#[verifier::external_body]
fn document_get_i64(d: &Document, key: &str) -> (r: Result<i64, AccessError>)
    ensures
        r == int64_field(document_fields(*d), key@),
{
    match d.get_i64(key) {
        Ok(v) => Ok(v),
        Err(ValueAccessError::NotPresent) => Err(AccessError::NotPresent),
        Err(_) => Err(AccessError::UnexpectedType),
    }
}

/// `Document::get_f64`, keeping only whether it succeeds: `Ok` when a
/// floating-point number is under `key`, with the same errors as
/// `document_get_str`.
#[verifier::external_body]
fn document_check_f64(d: &Document, key: &str) -> (r: Result<(), AccessError>)
    ensures
        r == double_field(document_fields(*d), key@),
{
    match d.get_f64(key) {
        Ok(_) => Ok(()),
        Err(ValueAccessError::NotPresent) => Err(AccessError::NotPresent),
        Err(_) => Err(AccessError::UnexpectedType),
    }
}

/// `ObjectId::to_hex`: the lower-case hexadecimal text of the id's bytes.
#[verifier::external_body]
fn object_id_to_hex(bytes: [u8; 12]) -> (r: String)
    ensures
        r@ == hex_lower(bytes@),
{
    ObjectId::from_bytes(bytes).to_hex()
}

/// `DateTime`'s `to_string`: its display text, named `datetime_display`.
#[verifier::external_body]
fn datetime_to_string(millis: i64) -> (r: String)
    ensures
        r@ == datetime_display(millis),
{
    DateTime::from_millis(millis).to_string()
}

/// The comment a document stores, as the views of its fields (id, hotel id,
/// text, date, author id), or the first field access that fails, fields
/// being read in that order.
pub open spec fn comment_fields(f: Map<Seq<char>, BsonField>) -> Result<
    (Seq<char>, Seq<char>, Seq<char>, Seq<char>, Seq<char>),
    AccessError,
> {
    match object_id_field(f, "_id"@) {
        Err(e) => Err(e),
        Ok(id) => match str_field(f, "hotel_id"@) {
            Err(e) => Err(e),
            Ok(hotel_id) => match str_field(f, "text"@) {
                Err(e) => Err(e),
                Ok(text) => match datetime_field(f, "date"@) {
                    Err(e) => Err(e),
                    Ok(date) => match str_field(f, "author_id"@) {
                        Err(e) => Err(e),
                        Ok(author_id) => Ok(
                            (hex_lower(id), hotel_id, text, datetime_display(date), author_id),
                        ),
                    },
                },
            },
        },
    }
}

/// What a hotel document holds for the services, as views (id, name,
/// provided feature), or the first field access that fails, fields being
/// read in the order id, name, latitude, longitude, provide; latitude and
/// longitude must hold floating-point numbers.
pub open spec fn hotel_fields(f: Map<Seq<char>, BsonField>) -> Result<(Seq<char>, Seq<char>, i64), AccessError> {
    match object_id_field(f, "_id"@) {
        Err(e) => Err(e),
        Ok(id) => match str_field(f, "name"@) {
            Err(e) => Err(e),
            Ok(name) => match double_field(f, "latitude"@) {
                Err(e) => Err(e),
                Ok(_) => match double_field(f, "longitude"@) {
                    Err(e) => Err(e),
                    Ok(_) => match int64_field(f, "provide"@) {
                        Err(e) => Err(e),
                        Ok(provide) => Ok((hex_lower(id), name, provide)),
                    },
                },
            },
        },
    }
}

/// What a user document holds for the services, as views (id, username,
/// password, favourite features), or the first field access that fails,
/// fields being read in that order.
pub open spec fn user_fields(f: Map<Seq<char>, BsonField>) -> Result<(Seq<char>, Seq<char>, Seq<char>, i64), AccessError> {
    match object_id_field(f, "_id"@) {
        Err(e) => Err(e),
        Ok(id) => match str_field(f, "username"@) {
            Err(e) => Err(e),
            Ok(username) => match str_field(f, "password"@) {
                Err(e) => Err(e),
                Ok(password) => match int64_field(f, "favorite"@) {
                    Err(e) => Err(e),
                    Ok(favorite) => Ok((hex_lower(id), username, password, favorite)),
                },
            },
        },
    }
}

/// Id and provided feature, in order, of the documents that read as hotels.
pub open spec fn parsed_hotels(docs: Seq<Document>) -> Seq<(Seq<char>, i64)>
    decreases docs.len(),
{
    if docs.len() == 0 {
        Seq::empty()
    } else {
        match hotel_fields(document_fields(docs.last())) {
            Ok(v) => parsed_hotels(docs.drop_last()).push((v.0, v.2)),
            Err(_) => parsed_hotels(docs.drop_last()),
        }
    }
}

/// The id of a hotel document: the hex text of its object id.
pub fn hotel_id_of(document: &Document) -> (r: Result<String, AccessError>)
    ensures
        match object_id_field(document_fields(*document), "_id"@) {
            Ok(b) => r matches Ok(s) && s@ == hex_lower(b),
            Err(e) => r == Err::<String, AccessError>(e),
        },
{
    Ok(object_id_to_hex(document_get_object_id(document, "_id")?))
}

/// Reads what the services use of a hotel document: id, name and provided
/// feature, after checking that latitude and longitude hold floating-point
/// numbers.
pub fn doc_to_hotel_fields(document: &Document) -> (r: Result<(String, String, i64), AccessError>)
    ensures
        match hotel_fields(document_fields(*document)) {
            Ok(v) => r matches Ok(t) && t.0@ == v.0 && t.1@ == v.1 && t.2 == v.2,
            Err(e) => r == Err::<(String, String, i64), AccessError>(e),
        },
{
    let id = object_id_to_hex(document_get_object_id(document, "_id")?);
    let name = document_get_str(document, "name")?;
    document_check_f64(document, "latitude")?;
    document_check_f64(document, "longitude")?;
    let provide: i64 = document_get_i64(document, "provide")?;
    Ok((id, name, provide))
}

/// Id and provided feature, in order, of the documents that read as hotels.
pub fn hotel_features_from_documents(docs: &Vec<Document>) -> (r: Vec<HotelFeature>)
    ensures
        r@.map_values(|h: HotelFeature| (h.id@, h.provide)) == parsed_hotels(docs@),
{
    let mut hotels: Vec<HotelFeature> = Vec::new();
    let mut i: usize = 0;
    while i < docs.len()
        invariant
            i <= docs@.len(),
            hotels@.map_values(|h: HotelFeature| (h.id@, h.provide)) == parsed_hotels(docs@.take(i as int)),
        decreases docs.len() - i,
    {
        proof {
            assert(docs@.take(i + 1).drop_last() =~= docs@.take(i as int));
        }
        match doc_to_hotel_fields(&docs[i]) {
            Ok((id, _name, provide)) => {
                hotels.push(HotelFeature { id, provide });
            },
            Err(_) => {},
        }
        proof {
            assert(hotels@.map_values(|h: HotelFeature| (h.id@, h.provide)) =~= parsed_hotels(docs@.take(i + 1)));
        }
        i = i + 1;
    }
    proof {
        assert(docs@.take(docs@.len() as int) =~= docs@);
    }
    hotels
}

/// Reads what the services use of a user document: id, username, password
/// and favourite features.
pub fn doc_to_user_fields(document: &Document) -> (r: Result<(String, String, String, i64), AccessError>)
    ensures
        match user_fields(document_fields(*document)) {
            Ok(v) => r matches Ok(t) && t.0@ == v.0 && t.1@ == v.1 && t.2@ == v.2 && t.3 == v.3,
            Err(e) => r == Err::<(String, String, String, i64), AccessError>(e),
        },
{
    let id = object_id_to_hex(document_get_object_id(document, "_id")?);
    let username = document_get_str(document, "username")?;
    let password = document_get_str(document, "password")?;
    let favorite: i64 = document_get_i64(document, "favorite")?;
    Ok((id, username, password, favorite))
}

/// The views of a comment's fields.
pub open spec fn comment_view(c: Comment) -> (Seq<char>, Seq<char>, Seq<char>, Seq<char>, Seq<char>) {
    (c.id@, c.hotel_id@, c.text@, c.date@, c.author_id@)
}

/// Type of the views of a comment's fields.
pub type CommentView = (Seq<char>, Seq<char>, Seq<char>, Seq<char>, Seq<char>);

/// The views of the comments that the documents store, in order, leaving
/// out the documents that do not read as comments.
pub open spec fn parsed_comments(docs: Seq<Document>) -> Seq<CommentView>
    decreases docs.len(),
{
    if docs.len() == 0 {
        Seq::empty()
    } else {
        match comment_fields(document_fields(docs.last())) {
            Ok(v) => parsed_comments(docs.drop_last()).push(v),
            Err(_) => parsed_comments(docs.drop_last()),
        }
    }
}

/// Comment views keyed by their hotel id.
pub open spec fn keyed_by_hotel(vs: Seq<CommentView>) -> Seq<(Seq<char>, CommentView)> {
    vs.map_values(|v: CommentView| (v.1, v))
}

/// A comment cache seen through the views of its comments.
pub open spec fn comment_groups(m: Map<Seq<char>, Seq<Comment>>) -> Map<Seq<char>, Seq<CommentView>> {
    m.map_values(|g: Seq<Comment>| g.map_values(|c: Comment| comment_view(c)))
}

pub proof fn lemma_comment_groups_pushed(m: Map<Seq<char>, Seq<Comment>>, k: Seq<char>, c: Comment)
    ensures
        comment_groups(pushed(m, k, c)) == pushed(comment_groups(m), k, comment_view(c)),
{
    let l = comment_groups(pushed(m, k, c));
    let r = pushed(comment_groups(m), k, comment_view(c));
    assert forall|x: Seq<char>| l.contains_key(x) implies #[trigger] l[x] == r[x] by {
        if x == k {
            assert(l[x] =~= r[x]);
        }
    }
    assert(l =~= r);
}

pub proof fn lemma_parsed_comments_len(docs: Seq<Document>)
    ensures
        parsed_comments(docs).len() <= docs.len(),
    decreases docs.len(),
{
    if docs.len() > 0 {
        lemma_parsed_comments_len(docs.drop_last());
    }
}

pub proof fn lemma_parsed_comments_prefix(docs: Seq<Document>, i: int)
    requires
        0 <= i <= docs.len(),
    ensures
        parsed_comments(docs.take(i)).len() <= parsed_comments(docs).len(),
        parsed_comments(docs.take(i)) =~= parsed_comments(docs).take(
            parsed_comments(docs.take(i)).len() as int,
        ),
    decreases docs.len(),
{
    if i == docs.len() {
        assert(docs.take(i) =~= docs);
    } else {
        lemma_parsed_comments_prefix(docs.drop_last(), i);
        assert(docs.drop_last().take(i) =~= docs.take(i));
    }
}

impl ProfileServiceImpl {
    /// Reads a comment out of a stored document.
    pub fn doc_to_comment(document: &Document) -> (r: Result<Comment, AccessError>)
        ensures
            match comment_fields(document_fields(*document)) {
                Ok(v) => r matches Ok(c) && comment_view(c) == v,
                Err(e) => r == Err::<Comment, AccessError>(e),
            },
    {
        let id = object_id_to_hex(document_get_object_id(document, "_id")?);
        let hotel_id = document_get_str(document, "hotel_id")?;
        let text = document_get_str(document, "text")?;
        let date = datetime_to_string(document_get_datetime(document, "date")?);
        let author_id = document_get_str(document, "author_id")?;
        Ok(Comment { id, hotel_id, text, date, author_id })
    }

    /// Reads the comments that the documents store, in order, leaving out
    /// the documents that do not read as comments.
    pub fn comments_from_documents(docs: &Vec<Document>) -> (r: Vec<Comment>)
        ensures
            r@.map_values(|c: Comment| comment_view(c)) == parsed_comments(docs@),
    {
        let mut comments: Vec<Comment> = Vec::new();
        let mut i: usize = 0;
        while i < docs.len()
            invariant
                i <= docs@.len(),
                comments@.map_values(|c: Comment| comment_view(c)) == parsed_comments(docs@.take(i as int)),
            decreases docs.len() - i,
        {
            proof {
                assert(docs@.take(i + 1).drop_last() =~= docs@.take(i as int));
            }
            match Self::doc_to_comment(&docs[i]) {
                Ok(c) => {
                    comments.push(c);
                },
                Err(_) => {},
            }
            proof {
                assert(comments@.map_values(|c: Comment| comment_view(c)) =~= parsed_comments(docs@.take(i + 1)));
            }
            i = i + 1;
        }
        proof {
            assert(docs@.take(docs@.len() as int) =~= docs@);
        }
        comments
    }

    /// Caches, under their hotel ids, the comments that the documents store,
    /// stopping after `siz` comments when `siz` is not negative (the stop is
    /// checked after each comment). Documents that do not read as comments
    /// are skipped and not counted. Returns how many comments were cached.
    pub fn cache_comments(cache: &mut GroupCache<Comment>, docs: &Vec<Document>, siz: i64) -> (written: i64)
        requires
            old(cache).wf(),
            docs@.len() <= i64::MAX,
        ensures
            final(cache).wf(),
            written == crate::cache::fill_count(parsed_comments(docs@).len() as int, siz as int),
            comment_groups(final(cache)@) == pushed_all(
                comment_groups(old(cache)@),
                keyed_by_hotel(parsed_comments(docs@).take(written as int)),
            ),
    {
        let ghost start = comment_groups(cache@);
        let ghost all = parsed_comments(docs@);
        let mut written: i64 = 0;
        let mut done = false;
        let mut i: usize = 0;
        while !done && i < docs.len()
            invariant
                cache.wf(),
                i <= docs@.len(),
                docs@.len() <= i64::MAX,
                all == parsed_comments(docs@),
                written == parsed_comments(docs@.take(i as int)).len(),
                comment_groups(cache@) == pushed_all(start, keyed_by_hotel(parsed_comments(docs@.take(i as int)))),
                done ==> written == crate::cache::fill_count(all.len() as int, siz as int),
                !done ==> (siz >= 0 ==> written < siz || written == 0),
            decreases docs.len() - i,
        {
            proof {
                assert(docs@.take(i + 1).drop_last() =~= docs@.take(i as int));
                lemma_parsed_comments_prefix(docs@, i + 1);
                lemma_parsed_comments_prefix(docs@, i as int);
                lemma_parsed_comments_len(docs@.take(i + 1));
            }
            match Self::doc_to_comment(&docs[i]) {
                Ok(c) => {
                    let key = c.hotel_id.clone();
                    let ghost before = cache@;
                    proof {
                        let pre = keyed_by_hotel(parsed_comments(docs@.take(i as int)));
                        let post = keyed_by_hotel(parsed_comments(docs@.take(i + 1)));
                        assert(post.drop_last() =~= pre);
                        lemma_comment_groups_pushed(before, key@, c);
                    }
                    cache.push(key, c);
                    written = written + 1;
                    if written >= siz && siz >= 0 {
                        done = true;
                        proof {
                            assert(parsed_comments(docs@.take(i + 1)).len() <= all.len());
                        }
                    }
                },
                Err(_) => {},
            }
            i = i + 1;
        }
        proof {
            lemma_parsed_comments_prefix(docs@, i as int);
            if !done {
                assert(docs@.take(i as int) =~= docs@);
            }
        }
        written
    }

    /// The cached comments of a hotel, copied, if the hotel is in the cache.
    pub fn retrieve_comments_by_hotel(cache: &GroupCache<Comment>, hotel_id: &String) -> (r: Option<Vec<Comment>>)
        requires
            cache.wf(),
        ensures
            r is Some <==> cache@.contains_key(hotel_id@),
            r matches Some(v) ==> v@ == cache@[hotel_id@],
    {
        match cache.get(hotel_id) {
            Some(group) => {
                let mut copy: Vec<Comment> = Vec::new();
                let mut i: usize = 0;
                while i < group.len()
                    invariant
                        i <= group@.len(),
                        copy@ =~= group@.take(i as int),
                    decreases group.len() - i,
                {
                    copy.push(group[i].duplicate());
                    i = i + 1;
                }
                proof {
                    assert(group@.take(group@.len() as int) =~= group@);
                }
                Some(copy)
            },
            None => None,
        }
    }
}

} // verus!
