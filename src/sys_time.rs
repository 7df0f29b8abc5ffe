use vstd::prelude::*;
use crate::codec::{le_value, read_le};

verus! {

/// Reads a little-endian `u64` from the first eight bytes, or `None` if
/// there are fewer than eight.
pub fn read_u64_le(bytes: &[u8]) -> (r: Option<u64>)
    ensures
        bytes@.len() < 8 ==> r is None,
        bytes@.len() >= 8 ==> r == Some(le_value(bytes@.subrange(0, 8)) as u64),
{
    if bytes.len() < 8 {
        None
    } else {
        Some(read_le(bytes, 0, 8))
    }
}

/// Reads a little-endian `u32` from the first four bytes, or `None` if
/// there are fewer than four.
pub fn read_u32_le(bytes: &[u8]) -> (r: Option<u32>)
    ensures
        bytes@.len() < 4 ==> r is None,
        bytes@.len() >= 4 ==> r == Some(le_value(bytes@.subrange(0, 4)) as u32),
{
    if bytes.len() < 4 {
        None
    } else {
        proof {
            crate::codec::lemma_le_bound(bytes@.subrange(0, 4));
            reveal_with_fuel(crate::codec::pow256, 5);
        }
        Some(read_le(bytes, 0, 4) as u32)
    }
}

/// The nonce sent with a time request.
pub fn create_nonce() -> (r: [u8; 64])
    ensures
        r@ == Seq::new(64, |i: int| 0u8),
{
    let nonce = [0u8; 64];
    assert(nonce@ =~= Seq::new(64, |i: int| 0u8));
    nonce
}

/// A time reading: the midpoint in microseconds since the epoch, its
/// uncertainty radius in microseconds, and whether it was authenticated.
#[derive(Clone, Copy, Debug, PartialEq, Eq, Structural)]
pub struct ParsedResponse {
    pub verified: bool,
    pub midpoint: u64,
    pub radius: u32,
}

/// The outcome of the authentication steps on a response signed under a
/// delegated key: the two signature checks, the check that the request's
/// nonce is in the response's Merkle tree, and the delegation's validity
/// span in microseconds.
#[derive(Clone, Copy, Debug, PartialEq, Eq, Structural)]
pub struct DelegationCheck {
    pub dele_signature_ok: bool,
    pub srep_signature_ok: bool,
    pub nonce_in_tree: bool,
    pub mint: u64,
    pub maxt: u64,
}

/// Why a time response was rejected.
#[derive(Clone, Copy, Debug, PartialEq, Eq, Structural)]
pub enum TimeError {
    /// A field is shorter than its integer.
    Truncated,
    /// The delegation certificate's signature did not verify.
    InvalidDeleSignature,
    /// The signed response's signature did not verify.
    InvalidSrepSignature,
    /// The nonce is not in the response's Merkle tree.
    NonceNotInTree,
    /// The midpoint lies before the delegation's span.
    MidpointBeforeSpan,
    /// The midpoint lies after the delegation's span.
    MidpointAfterSpan,
}

/// Reads the midpoint and radius fields of a response and, when the
/// server's key was known (`check` is `Some`), requires every
/// authentication step to have passed and the midpoint to lie within the
/// delegation's span. Without a key the reading is returned unverified.
pub fn extract_time(midp: &[u8], radi: &[u8], check: Option<DelegationCheck>) -> (r: Result<ParsedResponse, TimeError>)
    ensures
        midp@.len() < 8 || radi@.len() < 4 ==> r == Err::<ParsedResponse, TimeError>(TimeError::Truncated),
        midp@.len() >= 8 && radi@.len() >= 4 ==> {
            let m = le_value(midp@.subrange(0, 8)) as u64;
            let rad = le_value(radi@.subrange(0, 4)) as u32;
            match check {
                None => r == Ok::<ParsedResponse, TimeError>(ParsedResponse { verified: false, midpoint: m, radius: rad }),
                Some(c) => r == if !c.dele_signature_ok {
                    Err::<ParsedResponse, TimeError>(TimeError::InvalidDeleSignature)
                } else if !c.srep_signature_ok {
                    Err(TimeError::InvalidSrepSignature)
                } else if !c.nonce_in_tree {
                    Err(TimeError::NonceNotInTree)
                } else if m < c.mint {
                    Err(TimeError::MidpointBeforeSpan)
                } else if m > c.maxt {
                    Err(TimeError::MidpointAfterSpan)
                } else {
                    Ok(ParsedResponse { verified: true, midpoint: m, radius: rad })
                },
            }
        },
{
    let midpoint = match read_u64_le(midp) {
        Some(m) => m,
        None => { return Err(TimeError::Truncated); },
    };
    let radius = match read_u32_le(radi) {
        Some(v) => v,
        None => { return Err(TimeError::Truncated); },
    };
    match check {
        None => Ok(ParsedResponse { verified: false, midpoint, radius }),
        Some(c) => {
            if !c.dele_signature_ok {
                Err(TimeError::InvalidDeleSignature)
            } else if !c.srep_signature_ok {
                Err(TimeError::InvalidSrepSignature)
            } else if !c.nonce_in_tree {
                Err(TimeError::NonceNotInTree)
            } else if midpoint < c.mint {
                Err(TimeError::MidpointBeforeSpan)
            } else if midpoint > c.maxt {
                Err(TimeError::MidpointAfterSpan)
            } else {
                Ok(ParsedResponse { verified: true, midpoint, radius })
            }
        },
    }
}

/// Splits a midpoint in microseconds since the epoch into whole seconds and
/// the remaining nanoseconds.
pub fn midpoint_to_timestamp(midpoint: u64) -> (r: (u64, u32))
    ensures
        r.0 == midpoint / 1000000,
        r.1 == (midpoint % 1000000) * 1000,
        r.1 < 1000000000,
{
    let seconds = midpoint / 1000000;
    let micros = midpoint % 1000000;
    assert(micros < 1000000);
    let nsecs = (micros * 1000) as u32;
    (seconds, nsecs)
}

} // verus!
