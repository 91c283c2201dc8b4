//! How tiers travel in service requests: as the integers 0, 1 and 2, and as
//! upper-case names.

use vstd::prelude::*;

use crate::store::DataTier;

verus! {

/// The tier a request's tier number stands for, if any.
pub open spec fn tier_of_code(code: int) -> Option<DataTier> {
    if code == 0 {
        Some(DataTier::Critical)
    } else if code == 1 {
        Some(DataTier::Personal)
    } else if code == 2 {
        Some(DataTier::Noise)
    } else {
        None
    }
}

/// The upper-case name of a tier.
pub open spec fn data_tier_name(t: DataTier) -> Seq<char> {
    match t {
        DataTier::Critical => "CRITICAL"@,
        DataTier::Personal => "PERSONAL"@,
        DataTier::Noise => "NOISE"@,
    }
}

/// Reads a request's tier number: 0 is `Critical`, 1 `Personal`, 2 `Noise`;
/// any other number is refused.
pub fn map_tier(tier_int: i32) -> (t: Option<DataTier>)
    ensures
        t == tier_of_code(tier_int as int),
{
    match tier_int {
        0 => Some(DataTier::Critical),
        1 => Some(DataTier::Personal),
        2 => Some(DataTier::Noise),
        _ => None,
    }
}

/// The upper-case name of a tier.
pub fn tier_str(tier: &DataTier) -> (s: &'static str)
    ensures
        s@ == data_tier_name(*tier),
{
    match tier {
        DataTier::Critical => "CRITICAL",
        DataTier::Personal => "PERSONAL",
        DataTier::Noise => "NOISE",
    }
}

} // verus!
