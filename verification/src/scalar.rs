//! The scalar handlers of the decoder: one for each kind of scalar that a
//! scanner can meet.

use crate::decimal::{
    lemma_text_round_trip, reconstruct_i128, reconstruct_u128, render_i128, render_u128,
};
use crate::registry::{acquired, Singleton, SingletonRegistry};
use crate::value::{Handle, Json, Value};
use std::rc::Rc;
use vstd::prelude::*;

verus! {

/// The shared `true` or `false`.
pub fn parse_bool(registry: &mut SingletonRegistry, val: bool) -> (r: Handle)
    ensures
        acquired(
            *old(registry),
            if val {
                Singleton::True
            } else {
                Singleton::False
            },
            *final(registry),
            r,
        ),
        r@ == Json::Bool(val),
{
    if val {
        parse_true(registry)
    } else {
        parse_false(registry)
    }
}

/// The shared `true`.
pub fn parse_true(registry: &mut SingletonRegistry) -> (r: Handle)
    ensures
        acquired(*old(registry), Singleton::True, *final(registry), r),
        r@ == Json::Bool(true),
{
    registry.get(Singleton::True)
}

/// The shared `false`.
pub fn parse_false(registry: &mut SingletonRegistry) -> (r: Handle)
    ensures
        acquired(*old(registry), Singleton::False, *final(registry), r),
        r@ == Json::Bool(false),
{
    registry.get(Singleton::False)
}

/// The shared `null`.
pub fn parse_none(registry: &mut SingletonRegistry) -> (r: Handle)
    ensures
        acquired(*old(registry), Singleton::Null, *final(registry), r),
        r@ == Json::Null,
{
    registry.get(Singleton::Null)
}

/// A signed 64-bit integer.
pub fn parse_i64(val: i64) -> (r: Handle)
    ensures
        r@ == Json::Int64(val),
{
    Rc::new(Value::Int64(val))
}

/// An unsigned 64-bit integer.
pub fn parse_u64(val: u64) -> (r: Handle)
    ensures
        r@ == Json::UInt64(val),
{
    Rc::new(Value::UInt64(val))
}

/// A signed 128-bit integer, by way of its decimal text: the integer is
/// written out in full and read back from what was written.
pub fn parse_i128(val: i128) -> (r: Handle)
    ensures
        r@ == Json::Int128(val),
{
    let text = render_i128(val);
    proof {
        lemma_text_round_trip(val as int);
    }
    match reconstruct_i128(text.as_slice()) {
        Some(read) => Rc::new(Value::Int128(read)),
        None => unreached(),
    }
}

/// An unsigned 128-bit integer, by way of its decimal text.
pub fn parse_u128(val: u128) -> (r: Handle)
    ensures
        r@ == Json::UInt128(val),
{
    let text = render_u128(val);
    proof {
        lemma_text_round_trip(val as int);
    }
    match reconstruct_u128(text.as_slice()) {
        Some(read) => Rc::new(Value::UInt128(read)),
        None => unreached(),
    }
}

/// A double, given by its IEEE-754 bit pattern.
pub fn parse_f64(bits: u64) -> (r: Handle)
    ensures
        r@ == Json::Float64(bits),
{
    Rc::new(Value::Float64(bits))
}

} // verus!
