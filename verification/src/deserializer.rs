//! The decode orchestrator: normalise the input, serve the two-byte literals
//! without a scan, hand everything else to the scanner, and settle what the
//! scanner answers.

use crate::cache::{table_wf, KeyCache, DEFAULT_CAPACITY};
use crate::input::{
    longest_valid_prefix, normalize, source_bytes, well_encoded, DeserializeError, ErrorKind,
    Source,
};
use crate::registry::{acquired, Singleton, SingletonRegistry};
use crate::value::{Handle, Json, Mapping, Value};
use std::rc::Rc;
use vstd::prelude::*;
use vstd::string::StringSliceAdditionalSpecFns;

verus! {

/// A decoded value and the number of bytes that held it.
pub struct DeserializeResult {
    pub obj: Handle,
    pub bytes_read: usize,
}

/// What decoding works with: the singletons and the key cache.
pub struct Decoder {
    pub registry: SingletonRegistry,
    pub keys: KeyCache,
}

/// The inputs that are decoded without a scan.
#[derive(Debug, Clone, Copy, PartialEq, Eq, Structural)]
pub enum Literal {
    /// `[]`
    EmptySequence,
    /// `{}`
    EmptyMapping,
    /// `""`
    EmptyString,
}

/// The literal that `bytes` spell as a whole, if they spell one.
pub open spec fn literal_of(bytes: Seq<u8>) -> Option<Literal> {
    if bytes == seq![0x5bu8, 0x5du8] {
        Some(Literal::EmptySequence)
    } else if bytes == seq![0x7bu8, 0x7du8] {
        Some(Literal::EmptyMapping)
    } else if bytes == seq![0x22u8, 0x22u8] {
        Some(Literal::EmptyString)
    } else {
        None
    }
}

/// The value of a literal.
pub open spec fn literal_json(literal: Literal) -> Json {
    match literal {
        Literal::EmptySequence => Json::Sequence(Seq::empty()),
        Literal::EmptyMapping => Json::Mapping(Seq::empty()),
        Literal::EmptyString => Json::String(Seq::empty()),
    }
}

/// Whether `byte` is JSON white space.
pub open spec fn is_space(byte: u8) -> bool {
    byte == 0x20 || byte == 0x09 || byte == 0x0a || byte == 0x0d
}

/// The index of the first byte at or after `from` that is no white space;
/// the length of `bytes` where there is none.
pub open spec fn first_trailing(bytes: Seq<u8>, from: int) -> int
    decreases bytes.len() - from,
{
    if from < 0 || from >= bytes.len() {
        bytes.len() as int
    } else if !is_space(bytes[from]) {
        from
    } else {
        first_trailing(bytes, from + 1)
    }
}

/// What becomes of the scanner's answer.
///
/// An error is passed on as it is. When one value is taken from a longer
/// input, so is a success. When the whole input is to be one value, a
/// success stands only if nothing but white space follows the value: else the
/// first such byte is reported as trailing data.
pub open spec fn concluded(
    bytes: Seq<u8>,
    stop_when_done: bool,
    reply: Result<DeserializeResult, DeserializeError>,
) -> Result<DeserializeResult, DeserializeError> {
    match reply {
        Err(e) => Err(e),
        Ok(found) => if !stop_when_done && first_trailing(bytes, found.bytes_read as int)
            < bytes.len() {
            Err(
                DeserializeError {
                    kind: ErrorKind::TrailingData,
                    offset: first_trailing(bytes, found.bytes_read as int) as usize,
                },
            )
        } else {
            Ok(found)
        },
    }
}

/// The value alone of a decoding.
pub open spec fn value_of(outcome: Result<DeserializeResult, DeserializeError>) -> Result<
    Handle,
    DeserializeError,
> {
    match outcome {
        Ok(found) => Ok(found.obj),
        Err(e) => Err(e),
    }
}

/// Whether the input is served without a scan: the whole input is to be
/// one value, and it spells a literal.
pub open spec fn on_fast_path(source: Source, stop_when_done: bool) -> bool {
    well_encoded(source) && !stop_when_done && literal_of(source_bytes(source)) is Some
}

/// Whether the input goes to the scanner.
pub open spec fn on_scan_path(source: Source, stop_when_done: bool) -> bool {
    well_encoded(source) && !on_fast_path(source, stop_when_done)
}

/// The refusal of bytes that are not UTF-8: the error is found at the end of
/// their longest UTF-8 prefix.
pub open spec fn refusal(source: Source, error: DeserializeError) -> bool {
    &&& error.kind == ErrorKind::InvalidUtf8
    &&& longest_valid_prefix(source_bytes(source), error.offset as int)
}

/// The fast path: the value is that of the literal, the empty string as a
/// share of the registry's and the containers new; the key cache stays as it
/// was.
pub open spec fn served(pre: Decoder, source: Source, post: Decoder, obj: Handle) -> bool {
    let literal = literal_of(source_bytes(source))->0;
    &&& obj@ == literal_json(literal)
    &&& post.keys == pre.keys
    &&& if literal == Literal::EmptyString {
        acquired(pre.registry, Singleton::EmptyString, post.registry, obj)
    } else {
        post.registry == pre.registry
    }
}

impl Decoder {
    /// A decoder with an empty cache and a registry without storage.
    pub fn new() -> (decoder: Decoder)
        ensures
            !decoder.registry.is_initialized(),
            table_wf(decoder.keys@),
            decoder.keys@ == Seq::new(DEFAULT_CAPACITY as nat, |i: int| None::<(u64, Seq<char>)>),
    {
        Decoder { registry: SingletonRegistry::new(), keys: KeyCache::new() }
    }
}

/// The literal that `bytes` spell as a whole, if they spell one.
pub fn recognize(bytes: &[u8]) -> (r: Option<Literal>)
    ensures
        r == literal_of(bytes@),
{
    if bytes.len() != 2 {
        return None;
    }
    let first = bytes[0];
    let second = bytes[1];
    if first == 0x5b && second == 0x5d {
        assert(bytes@ =~= seq![0x5bu8, 0x5du8]);
        Some(Literal::EmptySequence)
    } else if first == 0x7b && second == 0x7d {
        assert(bytes@ =~= seq![0x7bu8, 0x7du8]);
        Some(Literal::EmptyMapping)
    } else if first == 0x22 && second == 0x22 {
        assert(bytes@ =~= seq![0x22u8, 0x22u8]);
        Some(Literal::EmptyString)
    } else {
        assert(seq![0x5bu8, 0x5du8][0] == 0x5b && seq![0x5bu8, 0x5du8][1] == 0x5d);
        assert(seq![0x7bu8, 0x7du8][0] == 0x7b && seq![0x7bu8, 0x7du8][1] == 0x7d);
        assert(seq![0x22u8, 0x22u8][0] == 0x22 && seq![0x22u8, 0x22u8][1] == 0x22);
        None
    }
}

/// The index of the first byte at or after `from` that is no white space.
pub fn find_trailing(bytes: &[u8], from: usize) -> (r: Option<usize>)
    ensures
        r is Some <==> first_trailing(bytes@, from as int) < bytes@.len(),
        r matches Some(i) ==> i == first_trailing(bytes@, from as int),
{
    let mut i: usize = from;
    while i < bytes.len()
        invariant
            from <= i,
            first_trailing(bytes@, i as int) == first_trailing(bytes@, from as int),
        decreases bytes@.len() - i,
    {
        let byte = bytes[i];
        if !(byte == 0x20 || byte == 0x09 || byte == 0x0a || byte == 0x0d) {
            return Some(i);
        }
        i += 1;
    }
    None
}

/// What becomes of the scanner's answer `reply` on the input `bytes`.
pub fn conclude(
    bytes: &[u8],
    stop_when_done: bool,
    reply: Result<DeserializeResult, DeserializeError>,
) -> (r: Result<DeserializeResult, DeserializeError>)
    ensures
        r == concluded(bytes@, stop_when_done, reply),
{
    match reply {
        Err(e) => Err(e),
        Ok(found) => {
            if stop_when_done {
                return Ok(found);
            }
            match find_trailing(bytes, found.bytes_read) {
                Some(offset) => Err(DeserializeError { kind: ErrorKind::TrailingData, offset }),
                None => Ok(found),
            }
        },
    }
}

/// The value of a literal: the empty string from the registry, an empty
/// container new.
pub fn literal_value(registry: &mut SingletonRegistry, literal: Literal) -> (r: Handle)
    ensures
        r@ == literal_json(literal),
        if literal == Literal::EmptyString {
            acquired(*old(registry), Singleton::EmptyString, *final(registry), r)
        } else {
            *final(registry) == *old(registry)
        },
{
    match literal {
        Literal::EmptySequence => {
            let r = Rc::new(Value::Sequence(Vec::new()));
            assert(r@->Sequence_0 =~= Seq::empty());
            r
        },
        Literal::EmptyMapping => {
            let r = Rc::new(Value::Mapping(Mapping::new()));
            assert(r@->Mapping_0 =~= Seq::empty());
            r
        },
        Literal::EmptyString => registry.get(Singleton::EmptyString),
    }
}

fn deserialize_impl<B>(
    decoder: &mut Decoder,
    source: &Source,
    stop_when_done: bool,
    backend: B,
) -> (r: Result<DeserializeResult, DeserializeError>) where
    B: FnOnce(&mut Decoder, &str, bool) -> Result<DeserializeResult, DeserializeError>,

    requires
        forall|c: &mut Decoder, text: &str, stop: bool| #[trigger] backend.requires((c, text, stop)),
    ensures
        !well_encoded(*source) ==> *final(decoder) == *old(decoder) && r is Err && refusal(
            *source,
            r->Err_0,
        ),
        on_fast_path(*source, stop_when_done) ==> r is Ok && r->Ok_0.bytes_read == 2 && served(
            *old(decoder),
            *source,
            *final(decoder),
            r->Ok_0.obj,
        ),
        on_scan_path(*source, stop_when_done) ==> exists|
            c: &mut Decoder,
            text: &str,
            reply: Result<DeserializeResult, DeserializeError>,
        |
            {
                &&& *c == *old(decoder)
                &&& *final(c) == *final(decoder)
                &&& text.spec_bytes() == source_bytes(*source)
                &&& #[trigger] backend.ensures((c, text, stop_when_done), reply)
                &&& r == concluded(source_bytes(*source), stop_when_done, reply)
            },
{
    let text = match normalize(source) {
        Ok(text) => text,
        Err(e) => {
            return Err(e);
        },
    };
    let buffer = text.as_bytes();
    if !stop_when_done {
        match recognize(buffer) {
            Some(literal) => {
                let obj = literal_value(&mut decoder.registry, literal);
                return Ok(DeserializeResult { obj, bytes_read: 2 });
            },
            None => {},
        }
    }
    let reply = backend(decoder, text, stop_when_done);
    conclude(buffer, stop_when_done, reply)
}

/// Decodes the whole input as one value.
///
/// Bytes that are not UTF-8 are refused. A literal is served without a scan.
/// Every other input goes to `backend`, whose answer is settled as
/// [`concluded`] says; the value alone is returned.
pub fn deserialize<B>(decoder: &mut Decoder, source: &Source, backend: B) -> (r: Result<
    Handle,
    DeserializeError,
>) where B: FnOnce(&mut Decoder, &str, bool) -> Result<DeserializeResult, DeserializeError>
    requires
        forall|c: &mut Decoder, text: &str, stop: bool| #[trigger] backend.requires((c, text, stop)),
    ensures
        !well_encoded(*source) ==> *final(decoder) == *old(decoder) && r is Err && refusal(
            *source,
            r->Err_0,
        ),
        on_fast_path(*source, false) ==> r is Ok && served(
            *old(decoder),
            *source,
            *final(decoder),
            r->Ok_0,
        ),
        on_scan_path(*source, false) ==> exists|
            c: &mut Decoder,
            text: &str,
            reply: Result<DeserializeResult, DeserializeError>,
        |
            {
                &&& *c == *old(decoder)
                &&& *final(c) == *final(decoder)
                &&& text.spec_bytes() == source_bytes(*source)
                &&& #[trigger] backend.ensures((c, text, false), reply)
                &&& r == value_of(concluded(source_bytes(*source), false, reply))
            },
{
    match deserialize_impl(decoder, source, false, backend) {
        Ok(found) => Ok(found.obj),
        Err(e) => Err(e),
    }
}

/// Decodes the first value of the input and says how many bytes held it, so
/// that the caller can go on behind it.
///
/// Bytes that are not UTF-8 are refused. Every other input goes to
/// `backend`, and its answer is returned as it is.
pub fn deserialize_next<B>(decoder: &mut Decoder, source: &Source, backend: B) -> (r: Result<
    DeserializeResult,
    DeserializeError,
>) where B: FnOnce(&mut Decoder, &str, bool) -> Result<DeserializeResult, DeserializeError>
    requires
        forall|c: &mut Decoder, text: &str, stop: bool| #[trigger] backend.requires((c, text, stop)),
    ensures
        !well_encoded(*source) ==> *final(decoder) == *old(decoder) && r is Err && refusal(
            *source,
            r->Err_0,
        ),
        well_encoded(*source) ==> exists|
            c: &mut Decoder,
            text: &str,
            reply: Result<DeserializeResult, DeserializeError>,
        |
            {
                &&& *c == *old(decoder)
                &&& *final(c) == *final(decoder)
                &&& text.spec_bytes() == source_bytes(*source)
                &&& #[trigger] backend.ensures((c, text, true), reply)
                &&& r == reply
            },
{
    deserialize_impl(decoder, source, true, backend)
}

/// The fast path changes nothing that a caller can see in the value: where
/// the scanner reads a literal as the value it spells, in its two bytes, the
/// way through the scanner ends in the same value and the same count as the
/// fast path.
pub proof fn lemma_fast_path_transparent(bytes: Seq<u8>, reply: DeserializeResult)
    requires
        literal_of(bytes) is Some,
        reply.obj@ == literal_json(literal_of(bytes)->0),
        reply.bytes_read == 2,
    ensures
        concluded(bytes, false, Ok(reply)) == Ok::<DeserializeResult, DeserializeError>(reply),
        value_of(concluded(bytes, false, Ok(reply)))->Ok_0@ == literal_json(literal_of(bytes)->0),
{
    assert(bytes.len() == 2);
}

/// White space is passed over: where the bytes from `from` up to `to` are
/// white space and the byte at `to` is not, the search from `from` ends at
/// `to`.
pub proof fn lemma_first_trailing(bytes: Seq<u8>, from: int, to: int)
    requires
        0 <= from <= to < bytes.len(),
        forall|i: int| from <= i < to ==> is_space(#[trigger] bytes[i]),
        !is_space(bytes[to]),
    ensures
        first_trailing(bytes, from) == to,
    decreases to - from,
{
    if from < to {
        lemma_first_trailing(bytes, from + 1, to);
    }
}

/// Chained decoding: an input holds a first value, white space, and then a
/// second value. Where the scanner's count for the first value is its
/// length, the first value is handed out with that count; the next value
/// starts at the first byte behind the count that is no white space, and what
/// stands from there on is the second value, on which decoding goes on. The
/// same input, taken as one value, is refused for trailing data at that byte.
pub proof fn lemma_chained_decode(
    first: Seq<u8>,
    gap: Seq<u8>,
    second: Seq<u8>,
    reply: DeserializeResult,
)
    requires
        forall|i: int| 0 <= i < gap.len() ==> is_space(#[trigger] gap[i]),
        second.len() > 0,
        !is_space(second[0]),
        reply.bytes_read == first.len(),
    ensures
        concluded(first + gap + second, true, Ok(reply)) == Ok::<
            DeserializeResult,
            DeserializeError,
        >(reply),
        first_trailing(first + gap + second, reply.bytes_read as int) == first.len() + gap.len(),
        (first + gap + second).skip((first.len() + gap.len()) as int) == second,
        concluded(first + gap + second, false, Ok(reply)) == Err::<
            DeserializeResult,
            DeserializeError,
        >(
            DeserializeError {
                kind: ErrorKind::TrailingData,
                offset: (first.len() + gap.len()) as usize,
            },
        ),
{
    let input = first + gap + second;
    let start = first.len() as int;
    let next = (first.len() + gap.len()) as int;
    assert forall|i: int| start <= i < next implies is_space(#[trigger] input[i]) by {
        assert(input[i] == gap[i - start]);
    }
    assert(input[next] == second[0]);
    lemma_first_trailing(input, start, next);
    assert(input.skip(next) =~= second);
}

/// When one value is taken from a longer input, the scanner's answer is the
/// outcome: the count tells the caller where the next value starts.
pub proof fn lemma_next_passes_on(bytes: Seq<u8>, reply: Result<DeserializeResult, DeserializeError>)
    ensures
        concluded(bytes, true, reply) == reply,
{
}

} // verus!
