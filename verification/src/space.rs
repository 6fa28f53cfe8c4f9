//! Space admission guard: decides, before anything is mutated, whether a
//! planned relocation fits in the quarantine filesystem's available space.
//!
//! Rules, applied to the number of bytes a relocation needs and the bytes
//! currently available at the destination:
//! - nothing is admitted when no space is available at all;
//! - below a fixed threshold the required size must simply fit; at or above
//!   it, 120% of the required size must fit (headroom for copy strategies
//!   that briefly hold both source and destination material), with the
//!   multiplication overflow-checked and overflow reported, never wrapped;
//! - a single item is additionally rejected when it alone would take more
//!   than 80% of the available space, boundary-inclusive: exactly 80% is
//!   admitted, one byte more is not.

use vstd::prelude::*;

verus! {

/// Sizes below this many bytes are admitted without the 120% headroom rule.
pub const HEADROOM_THRESHOLD_BYTES: u64 = 100 * 1024 * 1024;

/// Why an admission request was refused.
#[derive(Clone, Copy, Debug, PartialEq, Eq, Structural)]
pub enum SpaceError {
    /// The destination filesystem reports zero available bytes.
    NoSpaceAvailable,
    /// The 120% headroom computation overflowed a 64-bit size.
    SizeOverflow,
    /// A single item would take more than 80% of the available space.
    SingleItemTooLarge,
    /// The required bytes (with headroom where it applies) exceed the space.
    InsufficientSpace,
}

/// Required bytes after the headroom rule: identity below the threshold,
/// 120% (rounded down) at or above it.
pub open spec fn spec_headroom_required(required: nat) -> nat {
    if required < HEADROOM_THRESHOLD_BYTES {
        required
    } else {
        (required * 120) / 100
    }
}

/// The largest size a single item may have against `available` bytes:
/// 80% of the available space, rounded down.
pub open spec fn spec_single_item_cap(available: nat) -> nat {
    (available * 80) / 100
}

/// The admission decision as a total function of its inputs, in the order
/// the rules are applied: zero space, headroom overflow, single-item cap,
/// then the plain fit check.
pub open spec fn spec_admission(
    available: nat,
    required: nat,
    single_item: bool,
) -> Result<(), SpaceError> {
    if available == 0 {
        Err(SpaceError::NoSpaceAvailable)
    } else if required >= HEADROOM_THRESHOLD_BYTES && required * 120 > u64::MAX {
        Err(SpaceError::SizeOverflow)
    } else if single_item && required > spec_single_item_cap(available) {
        Err(SpaceError::SingleItemTooLarge)
    } else if spec_headroom_required(required) > available {
        Err(SpaceError::InsufficientSpace)
    } else {
        Ok(())
    }
}

/// Decides whether a relocation needing `required_bytes` is admitted when
/// `available_bytes` are free at the destination; `single_item` marks a
/// per-item check, which additionally enforces the 80% cap.
///
/// The caller reads the available space from the destination filesystem and
/// mutates nothing until this returns `Ok`.
pub fn check_admission(available_bytes: u64, required_bytes: u64, single_item: bool) -> (r: Result<
    (),
    SpaceError,
>)
    ensures
        r == spec_admission(available_bytes as nat, required_bytes as nat, single_item),
{
    if available_bytes == 0 {
        return Err(SpaceError::NoSpaceAvailable);
    }
    let headroom_required: u64 = if required_bytes < HEADROOM_THRESHOLD_BYTES {
        required_bytes
    } else {
        match required_bytes.checked_mul(120) {
            Some(v) => v / 100,
            None => {
                return Err(SpaceError::SizeOverflow);
            },
        }
    };
    if single_item {
        let cap: u64 = ((available_bytes as u128 * 80) / 100) as u64;
        assert(available_bytes as nat * 80 / 100 <= available_bytes as nat) by (nonlinear_arith);
        if required_bytes > cap {
            return Err(SpaceError::SingleItemTooLarge);
        }
    }
    if headroom_required > available_bytes {
        return Err(SpaceError::InsufficientSpace);
    }
    Ok(())
}

} // verus!
