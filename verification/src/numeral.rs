//! The numeric materialiser: from a numeral as the scanner found it to the
//! narrowest value that holds it.

use crate::decimal::{
    all_digits, decimal_digits, decimal_text, digits_value, is_digit, lemma_decimal_digits,
    lemma_digits_canonical, lemma_skip_zeros, lemma_text_round_trip, parse_magnitude,
    render_i128, render_u128, text_digits, text_negative, text_value, I128_MIN_MAGNITUDE, MINUS,
    ZERO,
};
use crate::scalar::{parse_f64, parse_i128, parse_i64, parse_u128, parse_u64};
use crate::value::{Handle, Json, Value};
use std::rc::Rc;
use vstd::prelude::*;

verus! {

/// The magnitude of the least signed 64-bit integer.
pub const I64_MIN_MAGNITUDE: u128 = 0x8000_0000_0000_0000;

/// The greatest unsigned 64-bit integer.
pub const U64_LIMIT: u128 = 0xffff_ffff_ffff_ffff;

/// A numeral as the scanner hands it over: integral, with a sign and at
/// least one digit, or real.
pub struct Numeral {
    form: Form,
}

enum Form {
    Integral { negative: bool, digits: Vec<u8> },
    Real { bits: u64 },
}

/// What a numeral holds.
pub enum Lexeme {
    /// A numeral without fraction or exponent: its sign and its digits.
    Integral { negative: bool, digits: Seq<u8> },
    /// A numeral with a fraction or an exponent, which the scanner has
    /// converted to a double: the double's bit pattern.
    Real { bits: u64 },
}

/// The value that holds the integer `v` of the 128-bit domain in the least
/// width: signed 64-bit first, then unsigned 64-bit, then signed 128-bit.
pub open spec fn narrowest(v: int) -> Json {
    if i64::MIN <= v <= i64::MAX {
        Json::Int64(v as i64)
    } else if 0 <= v <= u64::MAX {
        Json::UInt64(v as u64)
    } else if i128::MIN <= v <= i128::MAX {
        Json::Int128(v as i128)
    } else {
        Json::UInt128(v as u128)
    }
}

/// The value of the integer `v`: the narrowest native one where there is
/// one, else the sign and the canonical digits.
pub open spec fn integer_json(v: int) -> Json {
    if i128::MIN <= v <= u128::MAX {
        narrowest(v)
    } else {
        Json::BigInt { negative: v < 0, digits: decimal_digits(vstd::math::abs(v) as nat) }
    }
}

/// The integer that an integer value holds; none for any other value.
pub open spec fn json_integer(j: Json) -> Option<int> {
    match j {
        Json::Int64(v) => Some(v as int),
        Json::UInt64(v) => Some(v as int),
        Json::Int128(v) => Some(v as int),
        Json::UInt128(v) => Some(v as int),
        Json::BigInt { negative, digits } => Some(
            if negative {
                -(digits_value(digits) as int)
            } else {
                digits_value(digits) as int
            },
        ),
        _ => None,
    }
}

/// The value that an integer text decodes to; none where the text is no
/// integer.
pub open spec fn decoded(text: Seq<u8>) -> Option<Json> {
    match text_value(text) {
        Some(v) => Some(integer_json(v)),
        None => None,
    }
}

/// An integral lexeme has at least one digit and digits only.
pub open spec fn lexeme_wf(lexeme: Lexeme) -> bool {
    lexeme matches Lexeme::Integral { negative, digits } ==> digits.len() > 0 && all_digits(digits)
}

/// The integer that an integral lexeme denotes.
pub open spec fn lexeme_integer(lexeme: Lexeme) -> int {
    match lexeme {
        Lexeme::Integral { negative, digits } => if negative {
            -(digits_value(digits) as int)
        } else {
            digits_value(digits) as int
        },
        Lexeme::Real { bits } => 0,
    }
}

/// The value that a lexeme materialises to.
///
/// An integer of the signed 64-bit range becomes `Int64`; a larger one of
/// the unsigned 64-bit range `UInt64`; one beyond 64 bits `Int128` or
/// `UInt128`; one beyond 128 bits keeps its sign and canonical digits. A real
/// lexeme becomes `Float64`.
pub open spec fn lexeme_json(lexeme: Lexeme) -> Json {
    match lexeme {
        Lexeme::Integral { negative, digits } => integer_json(lexeme_integer(lexeme)),
        Lexeme::Real { bits } => Json::Float64(bits),
    }
}

impl View for Numeral {
    type V = Lexeme;

    closed spec fn view(&self) -> Lexeme {
        match self.form {
            Form::Integral { negative, digits } => Lexeme::Integral { negative, digits: digits@ },
            Form::Real { bits } => Lexeme::Real { bits },
        }
    }
}

impl Numeral {
    #[verifier::type_invariant]
    spec fn inv(&self) -> bool {
        lexeme_wf(self@)
    }

    /// The integral numeral that `text` spells: an optional minus sign and at
    /// least one digit; none for any other text.
    pub fn integral(text: &[u8]) -> (r: Option<Numeral>)
        ensures
            r is Some <==> text_value(text@) is Some,
            r matches Some(n) ==> {
                &&& n@ == Lexeme::Integral {
                    negative: text_negative(text@),
                    digits: text_digits(text@),
                }
                &&& lexeme_wf(n@)
                &&& Some(lexeme_integer(n@)) == text_value(text@)
            },
    {
        let negative = text.len() > 0 && text[0] == MINUS;
        let from: usize = if negative {
            1
        } else {
            0
        };
        assert(text@.skip(from as int) =~= text_digits(text@));
        if from == text.len() {
            return None;
        }
        let mut digits: Vec<u8> = Vec::new();
        let mut i: usize = from;
        while i < text.len()
            invariant
                from <= i <= text@.len(),
                text_digits(text@) == text@.skip(from as int),
                digits@ == text@.subrange(from as int, i as int),
                all_digits(digits@),
            decreases text@.len() - i,
        {
            let byte = text[i];
            if byte < 0x30 || byte > 0x39 {
                assert(text_digits(text@)[i - from] == byte);
                return None;
            }
            digits.push(byte);
            assert(digits@ =~= text@.subrange(from as int, i + 1));
            i += 1;
        }
        assert(digits@ =~= text_digits(text@));
        Some(Numeral { form: Form::Integral { negative, digits } })
    }

    /// The numeral of a double, given by its bit pattern.
    pub fn of_bits(bits: u64) -> (r: Numeral)
        ensures
            r@ == (Lexeme::Real { bits }),
    {
        Numeral { form: Form::Real { bits } }
    }

    /// Whether the numeral is integral.
    pub fn is_integral(&self) -> (r: bool)
        ensures
            r == (self@ is Integral),
    {
        match &self.form {
            Form::Integral { .. } => true,
            Form::Real { .. } => false,
        }
    }

    /// The sign of an integral numeral: whether it is written with a minus.
    pub fn negative(&self) -> (r: bool)
        ensures
            r == (self@ matches Lexeme::Integral { negative, digits } && negative),
    {
        match &self.form {
            Form::Integral { negative, .. } => *negative,
            Form::Real { .. } => false,
        }
    }

    /// The digits of an integral numeral; none of a real one.
    pub fn digits(&self) -> (r: &[u8])
        ensures
            self@ matches Lexeme::Integral { negative, digits } ==> r@ == digits,
            self@ is Real ==> r@.len() == 0,
    {
        match &self.form {
            Form::Integral { digits, .. } => digits.as_slice(),
            Form::Real { .. } => &[],
        }
    }

    /// The bit pattern of a real numeral.
    pub fn bits(&self) -> (r: Option<u64>)
        ensures
            r == (match self@ {
                Lexeme::Real { bits } => Some(bits),
                Lexeme::Integral { .. } => None::<u64>,
            }),
    {
        match &self.form {
            Form::Integral { .. } => None,
            Form::Real { bits } => Some(*bits),
        }
    }
}

/// The digits of `digits` without leading zeros; none where `digits` is
/// empty or holds a byte that is no digit.
pub fn canonical_digits(digits: &[u8]) -> (r: Option<Vec<u8>>)
    ensures
        r is Some <==> digits@.len() > 0 && all_digits(digits@),
        r matches Some(canonical) ==> canonical@ == decimal_digits(digits_value(digits@)),
{
    if digits.len() == 0 || !digits_only(digits) {
        return None;
    }
    let mut k: usize = 0;
    while k < digits.len() - 1 && digits[k] == ZERO
        invariant
            k < digits@.len(),
            forall|j: int| 0 <= j < k ==> digits@[j] == ZERO,
        decreases digits@.len() - k,
    {
        k += 1;
    }
    let mut r: Vec<u8> = Vec::new();
    let mut i: usize = k;
    while i < digits.len()
        invariant
            k <= i <= digits@.len(),
            r@ == digits@.subrange(k as int, i as int),
        decreases digits@.len() - i,
    {
        r.push(digits[i]);
        assert(r@ =~= digits@.subrange(k as int, i + 1));
        i += 1;
    }
    proof {
        let rest = digits@.skip(k as int);
        assert(r@ =~= rest);
        lemma_skip_zeros(digits@, k as int);
        assert(forall|j: int| 0 <= j < rest.len() ==> rest[j] == digits@[k + j]);
        lemma_digits_canonical(rest);
    }
    Some(r)
}

/// The narrowest value that holds the numeral. An integer beyond 64 bits
/// goes through its decimal text.
pub fn materialize(numeral: &Numeral) -> (r: Handle)
    ensures
        r@ == lexeme_json(numeral@),
{
    proof {
        use_type_invariant(numeral);
    }
    match &numeral.form {
        Form::Real { bits } => parse_f64(*bits),
        Form::Integral { negative, digits } => {
            assert(digits@.skip(0) =~= digits@);
            match parse_magnitude(digits.as_slice(), 0) {
                Some(m) => {
                    if *negative {
                        if m <= I64_MIN_MAGNITUDE {
                            if m == I64_MIN_MAGNITUDE {
                                parse_i64(i64::MIN)
                            } else {
                                parse_i64(-(m as i64))
                            }
                        } else if m <= I128_MIN_MAGNITUDE {
                            if m == I128_MIN_MAGNITUDE {
                                parse_i128(i128::MIN)
                            } else {
                                parse_i128(-(m as i128))
                            }
                        } else {
                            big_integer(true, digits.as_slice())
                        }
                    } else {
                        if m < I64_MIN_MAGNITUDE {
                            parse_i64(m as i64)
                        } else if m <= U64_LIMIT {
                            parse_u64(m as u64)
                        } else if m < I128_MIN_MAGNITUDE {
                            parse_i128(m as i128)
                        } else {
                            parse_u128(m)
                        }
                    }
                },
                None => big_integer(*negative, digits.as_slice()),
            }
        },
    }
}

/// An integer beyond the native widths: its sign and its canonical digits.
fn big_integer(negative: bool, digits: &[u8]) -> (r: Handle)
    requires
        digits@.len() > 0,
        all_digits(digits@),
    ensures
        r@ == (Json::BigInt { negative, digits: decimal_digits(digits_value(digits@)) }),
{
    match canonical_digits(digits) {
        Some(canonical) => Rc::new(Value::BigInt { negative, digits: canonical }),
        None => unreached(),
    }
}

/// The value of an integer text; none where the text is no integer.
pub fn decode_integer(text: &[u8]) -> (r: Option<Handle>)
    ensures
        r is Some <==> decoded(text@) is Some,
        r matches Some(handle) ==> Some(handle@) == decoded(text@),
{
    match Numeral::integral(text) {
        Some(numeral) => Some(materialize(&numeral)),
        None => None,
    }
}

/// The decimal text of an integer value; none for a value that is no
/// integer, and for digits that are none.
pub open spec fn encoded(j: Json) -> Option<Seq<u8>> {
    match j {
        Json::Int64(v) => Some(decimal_text(v as int)),
        Json::UInt64(v) => Some(decimal_text(v as int)),
        Json::Int128(v) => Some(decimal_text(v as int)),
        Json::UInt128(v) => Some(decimal_text(v as int)),
        Json::BigInt { negative, digits } => if digits.len() > 0 && all_digits(digits) {
            if negative {
                Some(seq![MINUS] + digits)
            } else {
                Some(digits)
            }
        } else {
            None
        },
        _ => None,
    }
}

/// Whether `digits` holds ASCII decimal digits only.
pub fn digits_only(digits: &[u8]) -> (r: bool)
    ensures
        r == all_digits(digits@),
{
    let mut i: usize = 0;
    while i < digits.len()
        invariant
            i <= digits@.len(),
            forall|j: int| 0 <= j < i ==> is_digit(#[trigger] digits@[j]),
        decreases digits@.len() - i,
    {
        if digits[i] < 0x30 || digits[i] > 0x39 {
            return false;
        }
        i += 1;
    }
    true
}

/// The decimal text of an integer value; none for a value that is no integer.
pub fn encode_integer(value: &Value) -> (r: Option<Vec<u8>>)
    ensures
        r is Some <==> encoded(value@) is Some,
        r matches Some(text) ==> Some(text@) == encoded(value@),
{
    match value {
        Value::Int64(v) => Some(render_i128(*v as i128)),
        Value::UInt64(v) => Some(render_u128(*v as u128)),
        Value::Int128(v) => Some(render_i128(*v)),
        Value::UInt128(v) => Some(render_u128(*v)),
        Value::BigInt { negative, digits } => {
            if digits.len() == 0 || !digits_only(digits.as_slice()) {
                return None;
            }
            let mut text: Vec<u8> = Vec::new();
            if *negative {
                text.push(MINUS);
            }
            let mut i: usize = 0;
            while i < digits.len()
                invariant
                    i <= digits@.len(),
                    text@ == (if *negative {
                        seq![MINUS]
                    } else {
                        Seq::<u8>::empty()
                    }) + digits@.take(i as int),
                decreases digits@.len() - i,
            {
                text.push(digits[i]);
                assert(digits@.take(i + 1) =~= digits@.take(i as int).push(digits@[i as int]));
                assert(text@ =~= (if *negative {
                    seq![MINUS]
                } else {
                    Seq::<u8>::empty()
                }) + digits@.take(i + 1));
                i += 1;
            }
            assert(digits@.take(i as int) =~= digits@);
            assert(Seq::<u8>::empty() + digits@ =~= digits@);
            Some(text)
        },
        _ => None,
    }
}

/// Decoding the decimal text of an integer gives the value of that integer,
/// in the narrowest width that holds it, and the value holds the integer.
pub proof fn lemma_integer_round_trip(v: int)
    ensures
        decoded(decimal_text(v)) == Some(integer_json(v)),
        json_integer(integer_json(v)) == Some(v),
{
    lemma_text_round_trip(v);
    lemma_decimal_digits(vstd::math::abs(v) as nat);
}

/// Decoding what was encoded gives the integer back: always an integer
/// value that holds the same integer, and the very same value where that
/// value is the narrowest for its integer.
pub proof fn lemma_encode_decode(j: Json)
    requires
        encoded(j) is Some,
    ensures
        decoded(encoded(j)->0) is Some,
        json_integer(decoded(encoded(j)->0)->0) == json_integer(j),
        j == integer_json(json_integer(j)->0) ==> decoded(encoded(j)->0) == Some(j),
{
    let v = json_integer(j)->0;
    lemma_integer_round_trip(v);
    match j {
        Json::BigInt { negative, digits } => {
            let text = encoded(j)->0;
            assert(is_digit(digits[0]));
            if negative {
                assert(text[0] == MINUS);
                assert(text.skip(1) =~= digits);
            }
            assert(text_digits(text) == digits);
            assert(text_value(text) == Some(v));
        },
        _ => {},
    }
}

/// A signed 64-bit integer comes back from its decimal text as itself.
pub proof fn lemma_round_trip_i64(n: i64)
    ensures
        decoded(decimal_text(n as int)) == Some(Json::Int64(n)),
{
    lemma_integer_round_trip(n as int);
}

/// An unsigned 64-bit integer comes back from its decimal text as itself:
/// unsigned where it is beyond the signed range, signed below.
pub proof fn lemma_round_trip_u64(n: u64)
    ensures
        n > i64::MAX ==> decoded(decimal_text(n as int)) == Some(Json::UInt64(n)),
        n <= i64::MAX ==> decoded(decimal_text(n as int)) == Some(Json::Int64(n as i64)),
{
    lemma_integer_round_trip(n as int);
}

/// A signed 128-bit integer beyond 64 bits comes back from its decimal text
/// as itself.
pub proof fn lemma_round_trip_i128(n: i128)
    ensures
        (n < i64::MIN || n > u64::MAX) ==> decoded(decimal_text(n as int)) == Some(
            Json::Int128(n),
        ),
        json_integer(decoded(decimal_text(n as int))->0) == Some(n as int),
{
    lemma_integer_round_trip(n as int);
}

/// An unsigned 128-bit integer beyond the signed range comes back from its
/// decimal text as itself.
pub proof fn lemma_round_trip_u128(n: u128)
    ensures
        n > i128::MAX ==> decoded(decimal_text(n as int)) == Some(Json::UInt128(n)),
        json_integer(decoded(decimal_text(n as int))->0) == Some(n as int),
{
    lemma_integer_round_trip(n as int);
}

} // verus!
