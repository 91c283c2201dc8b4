//! What the service checks of a request before it runs anything: the
//! password header, the owner, the fields each call needs, and the tier
//! number. Each check gives the values the call goes on with, or the reason
//! the request is refused, in the order the service tests them.

use vstd::prelude::*;
use vstd::utf8::{decode_utf8, valid_utf8};

use crate::store::DataTier;
use crate::text::utf8_to_string;
use crate::vector_index::le_u32_at;
use crate::wire::{map_tier, tier_of_code};

verus! {

broadcast use vstd::string::group_string_axioms;

/// Why a request is refused.
#[derive(Debug, Clone, Copy, PartialEq, Eq)]
pub enum Rejection {
    /// The caller is not identified: no password header, or no owner.
    Unauthenticated(&'static str),
    /// A field is missing or malformed.
    InvalidArgument(&'static str),
    /// The tier number is none of 0, 1 and 2.
    InvalidTier(i32),
}

/// The refusal for a missing password header.
pub open spec fn no_password() -> Rejection {
    Rejection::Unauthenticated("x-password metadata header is required")
}

/// The refusal for a missing owner.
pub open spec fn no_owner() -> Rejection {
    Rejection::Unauthenticated("owner_id is required")
}

/// The refusal for a missing record id.
pub open spec fn no_record_id() -> Rejection {
    Rejection::InvalidArgument("record_id is required")
}

/// The tier a request names, or its refusal.
pub open spec fn tier_or_refusal(tier: i32) -> Result<DataTier, Rejection> {
    match tier_of_code(tier as int) {
        Some(t) => Ok(t),
        None => Err(Rejection::InvalidTier(tier)),
    }
}

fn tier_checked(tier: i32) -> (r: Result<DataTier, Rejection>)
    ensures
        r == tier_or_refusal(tier),
{
    match map_tier(tier) {
        Some(t) => Ok(t),
        None => Err(Rejection::InvalidTier(tier)),
    }
}

/// Checks a write: password, owner, record id, a payload that is not empty,
/// the tier, then a payload in UTF-8. Gives the tier and the payload's text.
pub fn check_write(has_password: bool, owner_id: &str, record_id: &str, payload: Vec<u8>, tier: i32) -> (r: Result<
    (DataTier, String),
    Rejection,
>)
    ensures
        !has_password ==> r == Err::<(DataTier, String), Rejection>(no_password()),
        has_password && owner_id@.len() == 0 ==> r == Err::<(DataTier, String), Rejection>(no_owner()),
        has_password && owner_id@.len() > 0 && record_id@.len() == 0 ==> r == Err::<(DataTier, String), Rejection>(
            no_record_id(),
        ),
        has_password && owner_id@.len() > 0 && record_id@.len() > 0 && payload@.len() == 0 ==> r == Err::<
            (DataTier, String),
            Rejection,
        >(Rejection::InvalidArgument("payload must not be empty")),
        has_password && owner_id@.len() > 0 && record_id@.len() > 0 && payload@.len() > 0 ==> match tier_or_refusal(
            tier,
        ) {
            Err(e) => r == Err::<(DataTier, String), Rejection>(e),
            Ok(t) => if valid_utf8(payload@) {
                r matches Ok((t2, text)) && t2 == t && text@ == decode_utf8(payload@)
            } else {
                r == Err::<(DataTier, String), Rejection>(
                    Rejection::InvalidArgument("payload must be valid UTF-8"),
                )
            },
        },
{
    if !has_password {
        return Err(Rejection::Unauthenticated("x-password metadata header is required"));
    }
    if owner_id.is_empty() {
        return Err(Rejection::Unauthenticated("owner_id is required"));
    }
    if record_id.is_empty() {
        return Err(Rejection::InvalidArgument("record_id is required"));
    }
    if payload.len() == 0 {
        return Err(Rejection::InvalidArgument("payload must not be empty"));
    }
    let t = match tier_checked(tier) {
        Ok(t) => t,
        Err(e) => {
            return Err(e);
        },
    };
    match utf8_to_string(payload) {
        Some(text) => Ok((t, text)),
        None => Err(Rejection::InvalidArgument("payload must be valid UTF-8")),
    }
}

/// Checks a read or a listing: password, owner, then the tier.
pub fn check_read(has_password: bool, owner_id: &str, tier: i32) -> (r: Result<DataTier, Rejection>)
    ensures
        r == (if !has_password {
            Err(no_password())
        } else if owner_id@.len() == 0 {
            Err(no_owner())
        } else {
            tier_or_refusal(tier)
        }),
{
    if !has_password {
        return Err(Rejection::Unauthenticated("x-password metadata header is required"));
    }
    if owner_id.is_empty() {
        return Err(Rejection::Unauthenticated("owner_id is required"));
    }
    tier_checked(tier)
}

/// Checks a delete: password, owner, record id, then the tier.
pub fn check_delete(has_password: bool, owner_id: &str, record_id: &str, tier: i32) -> (r: Result<
    DataTier,
    Rejection,
>)
    ensures
        r == (if !has_password {
            Err(no_password())
        } else if owner_id@.len() == 0 {
            Err(no_owner())
        } else if record_id@.len() == 0 {
            Err(no_record_id())
        } else {
            tier_or_refusal(tier)
        }),
{
    if !has_password {
        return Err(Rejection::Unauthenticated("x-password metadata header is required"));
    }
    if owner_id.is_empty() {
        return Err(Rejection::Unauthenticated("owner_id is required"));
    }
    if record_id.is_empty() {
        return Err(Rejection::InvalidArgument("record_id is required"));
    }
    tier_checked(tier)
}

/// Checks an audit request: password, owner, record id.
pub fn check_audit(has_password: bool, owner_id: &str, record_id: &str) -> (r: Result<(), Rejection>)
    ensures
        r == (if !has_password {
            Err(no_password())
        } else if owner_id@.len() == 0 {
            Err(no_owner())
        } else if record_id@.len() == 0 {
            Err(no_record_id())
        } else {
            Ok(())
        }),
{
    if !has_password {
        return Err(Rejection::Unauthenticated("x-password metadata header is required"));
    }
    if owner_id.is_empty() {
        return Err(Rejection::Unauthenticated("owner_id is required"));
    }
    if record_id.is_empty() {
        return Err(Rejection::InvalidArgument("record_id is required"));
    }
    Ok(())
}

/// Checks an embedding request: password, owner, the tier, then a payload in
/// UTF-8. Gives the tier and the payload's text.
pub fn check_embed(has_password: bool, owner_id: &str, payload: Vec<u8>, tier: i32) -> (r: Result<
    (DataTier, String),
    Rejection,
>)
    ensures
        !has_password ==> r == Err::<(DataTier, String), Rejection>(no_password()),
        has_password && owner_id@.len() == 0 ==> r == Err::<(DataTier, String), Rejection>(no_owner()),
        has_password && owner_id@.len() > 0 ==> match tier_or_refusal(tier) {
            Err(e) => r == Err::<(DataTier, String), Rejection>(e),
            Ok(t) => if valid_utf8(payload@) {
                r matches Ok((t2, text)) && t2 == t && text@ == decode_utf8(payload@)
            } else {
                r == Err::<(DataTier, String), Rejection>(
                    Rejection::InvalidArgument("payload must be valid UTF-8"),
                )
            },
        },
{
    if !has_password {
        return Err(Rejection::Unauthenticated("x-password metadata header is required"));
    }
    if owner_id.is_empty() {
        return Err(Rejection::Unauthenticated("owner_id is required"));
    }
    let t = match tier_checked(tier) {
        Ok(t) => t,
        Err(e) => {
            return Err(e);
        },
    };
    match utf8_to_string(payload) {
        Some(text) => Ok((t, text)),
        None => Err(Rejection::InvalidArgument("payload must be valid UTF-8")),
    }
}

/// The number of hits a search asks for: its `top_k`, or 10 when that is 0.
pub open spec fn hits_wanted(top_k: u32) -> u32 {
    if top_k == 0 {
        10
    } else {
        top_k
    }
}

/// The 32-bit patterns of a query vector's little-endian coordinates.
pub open spec fn query_bits(q: Seq<u8>) -> Seq<u32> {
    Seq::new(q.len() / 4, |i: int| le_u32_at(q, 4 * i))
}

/// Checks a search: password, owner, a query that is not empty and holds
/// whole 4-byte coordinates, then the tier. Gives the tier, the number of
/// hits wanted and the coordinates' bit patterns.
pub fn check_search(has_password: bool, owner_id: &str, query_vec: &[u8], tier: i32, top_k: u32) -> (r: Result<
    (DataTier, u32, Vec<u32>),
    Rejection,
>)
    ensures
        !has_password ==> r == Err::<(DataTier, u32, Vec<u32>), Rejection>(no_password()),
        has_password && owner_id@.len() == 0 ==> r == Err::<(DataTier, u32, Vec<u32>), Rejection>(no_owner()),
        has_password && owner_id@.len() > 0 && query_vec@.len() == 0 ==> r == Err::<
            (DataTier, u32, Vec<u32>),
            Rejection,
        >(Rejection::InvalidArgument("query_vec must not be empty")),
        has_password && owner_id@.len() > 0 && query_vec@.len() > 0 && query_vec@.len() % 4 != 0 ==> r == Err::<
            (DataTier, u32, Vec<u32>),
            Rejection,
        >(Rejection::InvalidArgument("query_vec must be a sequence of 4-byte little-endian f32 values")),
        has_password && owner_id@.len() > 0 && query_vec@.len() > 0 && query_vec@.len() % 4 == 0 ==> match tier_or_refusal(
            tier,
        ) {
            Err(e) => r == Err::<(DataTier, u32, Vec<u32>), Rejection>(e),
            Ok(t) => r matches Ok((t2, k, bits)) && t2 == t && k == hits_wanted(top_k) && bits@ == query_bits(
                query_vec@,
            ),
        },
{
    if !has_password {
        return Err(Rejection::Unauthenticated("x-password metadata header is required"));
    }
    if owner_id.is_empty() {
        return Err(Rejection::Unauthenticated("owner_id is required"));
    }
    if query_vec.len() == 0 {
        return Err(Rejection::InvalidArgument("query_vec must not be empty"));
    }
    if query_vec.len() % 4 != 0 {
        return Err(
            Rejection::InvalidArgument("query_vec must be a sequence of 4-byte little-endian f32 values"),
        );
    }
    let t = match tier_checked(tier) {
        Ok(t) => t,
        Err(e) => {
            return Err(e);
        },
    };
    let k = if top_k == 0 {
        10
    } else {
        top_k
    };
    let len = query_vec.len();
    let n = len / 4;
    let mut bits: Vec<u32> = Vec::new();
    let mut i: usize = 0;
    while i < n
        invariant
            len == query_vec@.len(),
            n == query_vec@.len() / 4,
            i <= n,
            bits@ == query_bits(query_vec@).take(i as int),
        decreases n - i,
    {
        assert(4 * i + 4 <= query_vec@.len()) by (nonlinear_arith)
            requires
                i < n,
                n == query_vec@.len() / 4,
        ;
        let b0 = query_vec[4 * i] as u32;
        let b1 = query_vec[4 * i + 1] as u32;
        let b2 = query_vec[4 * i + 2] as u32;
        let b3 = query_vec[4 * i + 3] as u32;
        bits.push(b0 | (b1 << 8u32) | (b2 << 16u32) | (b3 << 24u32));
        i = i + 1;
        assert(bits@ =~= query_bits(query_vec@).take(i as int));
    }
    assert(query_bits(query_vec@).take(n as int) =~= query_bits(query_vec@));
    Ok((t, k, bits))
}

} // verus!
