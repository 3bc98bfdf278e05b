//! The input normaliser: from what the caller hands in to the text that is
//! decoded.

use vstd::prelude::*;
use vstd::string::StringSliceAdditionalSpecFns;
use vstd::utf8::valid_utf8;

verus! {

/// What a caller can hand in: text, which is UTF-8 by its type, or bytes,
/// which are checked.
#[derive(Debug, Clone, Copy)]
pub enum Source<'a> {
    Text(&'a str),
    Bytes(&'a [u8]),
}

/// The kinds of decode errors.
#[derive(Debug, Clone, Copy, PartialEq, Eq, Structural)]
pub enum ErrorKind {
    /// The input is not UTF-8.
    InvalidUtf8,
    /// The scanner met a token that cannot stand where it stands.
    UnexpectedToken,
    /// A complete value is followed by something other than white space.
    TrailingData,
    /// The input ends inside a value.
    UnterminatedValue,
}

/// A decode error: its kind and the byte offset at which it was found.
#[derive(Debug, Clone, Copy, PartialEq, Eq, Structural)]
pub struct DeserializeError {
    pub kind: ErrorKind,
    pub offset: usize,
}

/// The bytes of a source.
pub open spec fn source_bytes(source: Source) -> Seq<u8> {
    match source {
        Source::Text(text) => text.spec_bytes(),
        Source::Bytes(bytes) => bytes@,
    }
}

/// Whether the first `k` bytes are the longest prefix of `bytes` that is
/// UTF-8.
pub open spec fn longest_valid_prefix(bytes: Seq<u8>, k: int) -> bool {
    &&& 0 <= k <= bytes.len()
    &&& valid_utf8(bytes.take(k))
    &&& forall|j: int| k < j <= bytes.len() ==> !valid_utf8(#[trigger] bytes.take(j))
}

/// Whether a source needs no check or passes it.
pub open spec fn well_encoded(source: Source) -> bool {
    source matches Source::Bytes(bytes) ==> valid_utf8(bytes@)
}

/// The text of `bytes`, or the length of their longest UTF-8 prefix.
///
/// Trusted: `core::str::from_utf8` succeeds exactly on UTF-8 and then
/// returns the same bytes as text; the error's `valid_up_to` is the greatest
/// length of a prefix on which it would succeed.
#[verifier::external_body]
fn checked_utf8<'a>(bytes: &'a [u8]) -> (r: Result<&'a str, usize>)
    ensures
        r is Ok <==> valid_utf8(bytes@),
        r matches Ok(text) ==> text.spec_bytes() == bytes@,
        r matches Err(k) ==> longest_valid_prefix(bytes@, k as int),
{
    match core::str::from_utf8(bytes) {
        Ok(text) => Ok(text),
        Err(e) => Err(e.valid_up_to()),
    }
}

/// The text to decode: the source's own text, or its bytes once they are
/// found to be UTF-8.
pub fn normalize<'a>(source: &Source<'a>) -> (r: Result<&'a str, DeserializeError>)
    ensures
        r is Ok <==> well_encoded(*source),
        r matches Ok(text) ==> text.spec_bytes() == source_bytes(*source),
        r matches Err(e) ==> e.kind == ErrorKind::InvalidUtf8 && longest_valid_prefix(
            source_bytes(*source),
            e.offset as int,
        ),
{
    match source {
        Source::Text(text) => Ok(*text),
        Source::Bytes(bytes) => match checked_utf8(bytes) {
            Ok(text) => Ok(text),
            Err(k) => Err(DeserializeError { kind: ErrorKind::InvalidUtf8, offset: k }),
        },
    }
}

} // verus!
