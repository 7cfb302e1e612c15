//! Comments on hotels, and the profile service that serves them.
use vstd::prelude::*;
use vstd::utf8::encode_utf8;

verus! {

/// A comment written about a hotel.
#[derive(Debug, Clone)]
pub struct Comment {
    pub id: String,
    pub hotel_id: String,
    pub text: String,
    pub date: String,
    pub author_id: String,
}

/// The weight of a comment in a hotel's popularity: the byte length of its
/// text, as `str::len` reports it.
pub open spec fn text_weight(c: Comment) -> int {
    (encode_utf8(c.text@).len() as usize) as int
}

impl Comment {
    /// A field-by-field copy of the comment.
    pub fn duplicate(&self) -> (r: Comment)
        ensures
            r == *self,
    {
        Comment {
            id: self.id.clone(),
            hotel_id: self.hotel_id.clone(),
            text: self.text.clone(),
            date: self.date.clone(),
            author_id: self.author_id.clone(),
        }
    }
}

/// The profile service, which serves the comments on hotels.
pub struct ProfileServiceImpl {
    pub name: String,
}

} // verus!
