//! A marshalling core for JSON: the decode-side key cache and literal fast
//! paths, the bridge between numeral text and native integers, the policy for
//! non-finite floats on encode, and the registry of shared singletons.

pub mod value;
pub mod hash;
pub mod cache;
pub mod decimal;
pub mod registry;
pub mod scalar;
pub mod numeral;
pub mod opt;
pub mod float;
pub mod input;
pub mod deserializer;
pub mod logitnpz;
