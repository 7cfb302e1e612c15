//! The reservation service, which answers with placeholder hotel ids.
use vstd::prelude::*;

verus! {

/// The reservation service.
pub struct ReservService {
    pub name: String,
}

impl ReservService {
    /// Answer to a reservation request.
    pub fn make_reservation() -> (r: Vec<String>)
        ensures
            r@.len() == 1,
            r@[0]@ == "hotel_make_reservation"@,
    {
        let mut htls: Vec<String> = Vec::new();
        htls.push("hotel_make_reservation".to_owned());
        htls
    }

    /// Answer to an availability request.
    pub fn check_availability() -> (r: Vec<String>)
        ensures
            r@.len() == 1,
            r@[0]@ == "hotel_check_availability"@,
    {
        let mut htls: Vec<String> = Vec::new();
        htls.push("hotel_check_availability".to_owned());
        htls
    }
}

} // verus!
