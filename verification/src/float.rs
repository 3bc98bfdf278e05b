//! The float serialiser: what is written for a double, under the policies
//! for values that are not finite.
//!
//! A double is given by its IEEE-754 binary64 bit pattern.

use crate::opt::{
    has_flag, is_set, lemma_policies_distinct, lemma_union, Opt, DISALLOW_NAN, SANITIZE_NAN,
};
use vstd::prelude::*;

verus! {

/// The sign bit of a double.
pub const SIGN_MASK: u64 = 0x8000_0000_0000_0000;

/// The exponent bits of a double.
pub const EXPONENT_MASK: u64 = 0x7ff0_0000_0000_0000;

/// The fraction bits of a double.
pub const FRACTION_MASK: u64 = 0x000f_ffff_ffff_ffff;

/// Whether the double is NaN: all exponent bits set, and a fraction bit.
pub open spec fn is_nan(bits: u64) -> bool {
    bits & EXPONENT_MASK == EXPONENT_MASK && bits & FRACTION_MASK != 0
}

/// Whether the double is an infinity: all exponent bits set, no fraction bit.
pub open spec fn is_infinite(bits: u64) -> bool {
    bits & EXPONENT_MASK == EXPONENT_MASK && bits & FRACTION_MASK == 0
}

/// Whether the double is finite: some exponent bit is clear.
pub open spec fn is_finite(bits: u64) -> bool {
    bits & EXPONENT_MASK != EXPONENT_MASK
}

/// Whether the sign bit is set.
pub open spec fn is_negative(bits: u64) -> bool {
    bits & SIGN_MASK != 0
}

/// What the output format can write.
#[derive(Debug, Clone, Copy, PartialEq, Eq, Structural)]
pub enum Dialect {
    /// Strict JSON: no token for a value that is not finite.
    Strict,
    /// JSON with the tokens `NaN`, `Infinity` and `-Infinity`.
    Extended,
}

/// What the serialiser writes for a double.
#[derive(Debug, Clone, Copy, PartialEq, Eq, Structural)]
pub enum FloatToken {
    /// The token `null`.
    Null,
    /// The shortest decimal numeral that reads back as the double with
    /// these bits.
    Numeral(u64),
    /// The token `NaN`.
    NaN,
    /// The token `Infinity`.
    Infinity,
    /// The token `-Infinity`.
    NegativeInfinity,
}

/// Why a double was not written.
#[derive(Debug, Clone, Copy, PartialEq, Eq, Structural)]
pub enum SerializeError {
    /// The double is not finite, no policy turns it into `null`, and the
    /// format has no token for it.
    NonFiniteFloatNotPermitted,
}

/// Whether a policy that turns non-finite doubles into `null` is set.
pub open spec fn suppresses(opts: Opt) -> bool {
    has_flag(opts, DISALLOW_NAN) || has_flag(opts, SANITIZE_NAN)
}

/// The token of a value that is not finite.
pub open spec fn non_finite_token(bits: u64) -> FloatToken {
    if is_nan(bits) {
        FloatToken::NaN
    } else if is_negative(bits) {
        FloatToken::NegativeInfinity
    } else {
        FloatToken::Infinity
    }
}

/// What is written for the double `bits` under `opts` in `dialect`.
///
/// A finite double is always written as its numeral. One that is not finite
/// becomes `null` under either policy; without a policy it is written as its
/// own token where the format has one, and is an error where it has none.
pub open spec fn serialized(bits: u64, opts: Opt, dialect: Dialect) -> Result<
    FloatToken,
    SerializeError,
> {
    if is_finite(bits) {
        Ok(FloatToken::Numeral(bits))
    } else if suppresses(opts) {
        Ok(FloatToken::Null)
    } else if dialect == Dialect::Extended {
        Ok(non_finite_token(bits))
    } else {
        Err(SerializeError::NonFiniteFloatNotPermitted)
    }
}

/// Whether the double is NaN.
pub fn bits_nan(bits: u64) -> (r: bool)
    ensures
        r == is_nan(bits),
{
    bits & EXPONENT_MASK == EXPONENT_MASK && bits & FRACTION_MASK != 0
}

/// Whether the double is an infinity.
pub fn bits_infinite(bits: u64) -> (r: bool)
    ensures
        r == is_infinite(bits),
{
    bits & EXPONENT_MASK == EXPONENT_MASK && bits & FRACTION_MASK == 0
}

/// Whether the double is finite.
pub fn bits_finite(bits: u64) -> (r: bool)
    ensures
        r == is_finite(bits),
        r == (!is_nan(bits) && !is_infinite(bits)),
{
    bits & EXPONENT_MASK != EXPONENT_MASK
}

/// A double to be written, with the options of the writer.
#[derive(Debug, Clone, Copy, PartialEq, Eq, Structural)]
pub struct FloatSerializer {
    pub bits: u64,
    pub opts: Opt,
}

impl FloatSerializer {
    /// The serialiser of the double `bits` under `opts`.
    pub fn new(bits: u64, opts: Opt) -> (s: FloatSerializer)
        ensures
            s.bits == bits,
            s.opts == opts,
    {
        FloatSerializer { bits, opts }
    }

    /// What is written for the double in `dialect`.
    pub fn serialize(&self, dialect: Dialect) -> (r: Result<FloatToken, SerializeError>)
        ensures
            r == serialized(self.bits, self.opts, dialect),
    {
        let suppressed = is_set(self.opts, SANITIZE_NAN) || is_set(self.opts, DISALLOW_NAN);
        if suppressed && (bits_nan(self.bits) || bits_infinite(self.bits)) {
            Ok(FloatToken::Null)
        } else if bits_finite(self.bits) {
            Ok(FloatToken::Numeral(self.bits))
        } else {
            match dialect {
                Dialect::Extended => if bits_nan(self.bits) {
                    Ok(FloatToken::NaN)
                } else if self.bits & SIGN_MASK != 0 {
                    Ok(FloatToken::NegativeInfinity)
                } else {
                    Ok(FloatToken::Infinity)
                },
                Dialect::Strict => Err(SerializeError::NonFiniteFloatNotPermitted),
            }
        }
    }
}

impl FloatToken {
    /// The text of a token that is no numeral.
    pub fn literal(&self) -> (text: Option<&'static str>)
        ensures
            text is None <==> *self is Numeral,
            *self == FloatToken::Null ==> text == Some("null"),
            *self == FloatToken::NaN ==> text == Some("NaN"),
            *self == FloatToken::Infinity ==> text == Some("Infinity"),
            *self == FloatToken::NegativeInfinity ==> text == Some("-Infinity"),
    {
        match self {
            FloatToken::Null => Some("null"),
            FloatToken::Numeral(_) => None,
            FloatToken::NaN => Some("NaN"),
            FloatToken::Infinity => Some("Infinity"),
            FloatToken::NegativeInfinity => Some("-Infinity"),
        }
    }
}

impl SerializeError {
    /// The message of the error.
    pub fn message(&self) -> (text: &'static str)
        ensures
            text == "Cannot serialize Infinity or NaN",
    {
        "Cannot serialize Infinity or NaN"
    }
}

/// The policy matrix for a double that is not finite: `null` under the
/// disallow policy, under the sanitize policy and under both; without a
/// policy an error in strict JSON and the value's own token otherwise.
pub proof fn lemma_policy_matrix(bits: u64, opts: Opt)
    requires
        !is_finite(bits),
    ensures
        serialized(bits, DISALLOW_NAN, Dialect::Strict) == Ok::<FloatToken, SerializeError>(
            FloatToken::Null,
        ),
        serialized(bits, SANITIZE_NAN, Dialect::Strict) == Ok::<FloatToken, SerializeError>(
            FloatToken::Null,
        ),
        serialized(bits, DISALLOW_NAN | SANITIZE_NAN, Dialect::Strict) == Ok::<
            FloatToken,
            SerializeError,
        >(FloatToken::Null),
        serialized(bits, 0, Dialect::Strict) == Err::<FloatToken, SerializeError>(
            SerializeError::NonFiniteFloatNotPermitted,
        ),
        serialized(bits, 0, Dialect::Extended) == Ok::<FloatToken, SerializeError>(
            non_finite_token(bits),
        ),
        suppresses(opts) ==> forall|dialect: Dialect|
            serialized(bits, opts, dialect) == Ok::<FloatToken, SerializeError>(FloatToken::Null),
        !suppresses(opts) ==> serialized(bits, opts, Dialect::Strict) == Err::<
            FloatToken,
            SerializeError,
        >(SerializeError::NonFiniteFloatNotPermitted),
{
    lemma_policies_distinct();
    lemma_union(DISALLOW_NAN, SANITIZE_NAN, DISALLOW_NAN);
}

/// Setting both policies does what either does alone, for every double and
/// whatever else is set.
pub proof fn lemma_policies_idempotent(bits: u64, opts: Opt, dialect: Dialect)
    ensures
        serialized(bits, opts | DISALLOW_NAN | SANITIZE_NAN, dialect) == serialized(
            bits,
            opts | DISALLOW_NAN,
            dialect,
        ),
        serialized(bits, opts | DISALLOW_NAN | SANITIZE_NAN, dialect) == serialized(
            bits,
            opts | SANITIZE_NAN,
            dialect,
        ),
{
    lemma_policies_distinct();
    lemma_union(opts | DISALLOW_NAN, SANITIZE_NAN, DISALLOW_NAN);
    lemma_union(opts | DISALLOW_NAN, SANITIZE_NAN, SANITIZE_NAN);
    lemma_union(opts, DISALLOW_NAN, DISALLOW_NAN);
    lemma_union(opts, SANITIZE_NAN, SANITIZE_NAN);
}

/// A finite double is written as its own numeral under every policy and in
/// every dialect: the bits handed on are the bits given.
pub proof fn lemma_finite_numeral(bits: u64, opts: Opt, dialect: Dialect)
    requires
        is_finite(bits),
    ensures
        serialized(bits, opts, dialect) == Ok::<FloatToken, SerializeError>(
            FloatToken::Numeral(bits),
        ),
{
}

/// Every double is exactly one of finite, infinite and NaN.
pub proof fn lemma_classes(bits: u64)
    ensures
        is_finite(bits) || is_infinite(bits) || is_nan(bits),
        !(is_finite(bits) && is_infinite(bits)),
        !(is_finite(bits) && is_nan(bits)),
        !(is_infinite(bits) && is_nan(bits)),
{
}

} // verus!
