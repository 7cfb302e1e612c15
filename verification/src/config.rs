//! Tuning constants shared by the services.
use vstd::prelude::*;

verus! {

/// Number of hotels the recommendation service asks the rate service for.
pub const RECOMM_NUM: i64 = 100;

/// Minimum popularity a hotel needs to be recommended.
pub const POP_THRESHOLD: i64 = 0;

/// Number of nearby hotels the research service asks the geo service for.
pub const NEARBY_NUM: i64 = 100;

} // verus!
