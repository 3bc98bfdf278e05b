//! Option flags: a set of independent switches, composed with `|` and tested
//! with `&`.

use vstd::prelude::*;

verus! {

/// A set of option flags.
pub type Opt = u32;

/// Write `null` for a float that is not finite.
pub const DISALLOW_NAN: Opt = 0x4000;

/// Write `null` for a float that is NaN or infinite.
pub const SANITIZE_NAN: Opt = 0x8000;

/// Whether `flag` is set in `opts`.
pub open spec fn has_flag(opts: Opt, flag: Opt) -> bool {
    opts & flag != 0
}

/// Whether `flag` is set in `opts`.
pub fn is_set(opts: Opt, flag: Opt) -> (r: bool)
    ensures
        r == has_flag(opts, flag),
{
    opts & flag != 0
}

/// A flag of one bit is set in a union exactly when it is set in one of the
/// two sides.
pub proof fn lemma_union(a: Opt, b: Opt, flag: Opt)
    ensures
        has_flag(a | b, flag) == (has_flag(a, flag) || has_flag(b, flag)),
{
    assert((a | b) & flag != 0 <==> (a & flag != 0 || b & flag != 0)) by (bit_vector);
}

/// The two policies for non-finite floats are distinct bits: setting one
/// does not set the other.
pub proof fn lemma_policies_distinct()
    ensures
        has_flag(DISALLOW_NAN, DISALLOW_NAN),
        has_flag(SANITIZE_NAN, SANITIZE_NAN),
        !has_flag(DISALLOW_NAN, SANITIZE_NAN),
        !has_flag(SANITIZE_NAN, DISALLOW_NAN),
        !has_flag(0, DISALLOW_NAN),
        !has_flag(0, SANITIZE_NAN),
{
    assert(0x4000u32 & 0x4000u32 != 0) by (bit_vector);
    assert(0x8000u32 & 0x8000u32 != 0) by (bit_vector);
    assert(0x4000u32 & 0x8000u32 == 0) by (bit_vector);
    assert(0x8000u32 & 0x4000u32 == 0) by (bit_vector);
    assert(0u32 & 0x4000u32 == 0) by (bit_vector);
    assert(0u32 & 0x8000u32 == 0) by (bit_vector);
}

} // verus!
