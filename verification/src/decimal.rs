//! Decimal text of integers: the lossless bridge between numerals and the
//! 128-bit integer domain.

use vstd::prelude::*;

verus! {

/// The byte of the minus sign.
pub const MINUS: u8 = 0x2d;

/// The byte of the digit zero.
pub const ZERO: u8 = 0x30;

/// The magnitude of the least signed 128-bit integer.
pub const I128_MIN_MAGNITUDE: u128 = 0x8000_0000_0000_0000_0000_0000_0000_0000;

/// Whether `byte` is an ASCII decimal digit.
pub open spec fn is_digit(byte: u8) -> bool {
    0x30 <= byte <= 0x39
}

/// Whether `text` holds ASCII decimal digits only.
pub open spec fn all_digits(text: Seq<u8>) -> bool {
    forall|i: int| 0 <= i < text.len() ==> is_digit(#[trigger] text[i])
}

/// The number that a digit stands for; zero for any other byte.
pub open spec fn digit_value(byte: u8) -> nat {
    if is_digit(byte) {
        (byte - 0x30) as nat
    } else {
        0
    }
}

/// The number that a digit string stands for, most significant digit first.
pub open spec fn digits_value(text: Seq<u8>) -> nat
    decreases text.len(),
{
    if text.len() == 0 {
        0
    } else {
        digits_value(text.drop_last()) * 10 + digit_value(text.last())
    }
}

/// The digits of `n` without leading zeros; the single digit zero for zero.
pub open spec fn decimal_digits(n: nat) -> Seq<u8>
    decreases n,
{
    if n < 10 {
        seq![(0x30 + n) as u8]
    } else {
        decimal_digits(n / 10).push((0x30 + n % 10) as u8)
    }
}

/// The decimal text of an integer: a minus sign for a negative one, then
/// the digits of its magnitude.
pub open spec fn decimal_text(v: int) -> Seq<u8> {
    if v < 0 {
        seq![MINUS] + decimal_digits((-v) as nat)
    } else {
        decimal_digits(v as nat)
    }
}

/// The digits of an integer text: what follows the sign, if there is one.
pub open spec fn text_digits(text: Seq<u8>) -> Seq<u8> {
    if text.len() > 0 && text[0] == MINUS {
        text.skip(1)
    } else {
        text
    }
}

/// Whether `text` starts with a minus sign.
pub open spec fn text_negative(text: Seq<u8>) -> bool {
    text.len() > 0 && text[0] == MINUS
}

/// The integer that `text` denotes: an optional minus sign and at least one
/// digit; none for any other text.
pub open spec fn text_value(text: Seq<u8>) -> Option<int> {
    let digits = text_digits(text);
    if digits.len() > 0 && all_digits(digits) {
        if text_negative(text) {
            Some(-(digits_value(digits) as int))
        } else {
            Some(digits_value(digits) as int)
        }
    } else {
        None
    }
}

/// The magnitude that a digit string denotes where it fits 128 bits; none for
/// an empty string, a byte that is no digit, or a larger number.
pub open spec fn spec_magnitude(digits: Seq<u8>) -> Option<u128> {
    if digits.len() > 0 && all_digits(digits) && digits_value(digits) <= u128::MAX {
        Some(digits_value(digits) as u128)
    } else {
        None
    }
}

/// The canonical digits are digits, start with no zero but for zero itself,
/// and denote the number they were made from.
pub proof fn lemma_decimal_digits(n: nat)
    ensures
        decimal_digits(n).len() >= 1,
        all_digits(decimal_digits(n)),
        digits_value(decimal_digits(n)) == n,
        n != 0 ==> decimal_digits(n)[0] != ZERO,
        n == 0 ==> decimal_digits(n) == seq![ZERO],
        decimal_digits(n)[0] != MINUS,
    decreases n,
{
    let text = decimal_digits(n);
    if n < 10 {
        assert(text.drop_last() =~= Seq::<u8>::empty());
        assert(digits_value(text.drop_last()) == 0);
        assert(text.last() == (0x30 + n) as u8);
    } else {
        lemma_decimal_digits(n / 10);
        assert(text.drop_last() =~= decimal_digits(n / 10));
        assert(text.last() == (0x30 + n % 10) as u8);
        assert(text[0] == decimal_digits(n / 10)[0]);
    }
}

/// A digit string without a leading zero is the canonical text of its number.
pub proof fn lemma_digits_canonical(text: Seq<u8>)
    requires
        text.len() >= 1,
        all_digits(text),
        text[0] != ZERO || text.len() == 1,
    ensures
        decimal_digits(digits_value(text)) == text,
    decreases text.len(),
{
    let head = text.drop_last();
    if text.len() == 1 {
        assert(head =~= Seq::<u8>::empty());
        assert(digits_value(head) == 0);
        assert(is_digit(text[0]));
        assert(decimal_digits(digits_value(text)) =~= text);
    } else {
        assert(head[0] == text[0]);
        assert(forall|i: int| 0 <= i < head.len() ==> head[i] == text[i]);
        lemma_digits_canonical(head);
        lemma_leading_digit(head);
        let n = digits_value(text);
        assert(is_digit(text.last()));
        assert(n == digits_value(head) * 10 + digit_value(text.last()));
        assert(n / 10 == digits_value(head));
        assert(n % 10 == digit_value(text.last()));
        assert(decimal_digits(n) =~= text);
    }
}

/// A digit string that starts with no zero denotes a positive number.
pub proof fn lemma_leading_digit(text: Seq<u8>)
    requires
        text.len() >= 1,
        all_digits(text),
        text[0] != ZERO,
    ensures
        digits_value(text) >= 1,
    decreases text.len(),
{
    let head = text.drop_last();
    if text.len() == 1 {
        assert(head =~= Seq::<u8>::empty());
        assert(digits_value(head) == 0);
        assert(is_digit(text[0]));
    } else {
        assert(head[0] == text[0]);
        assert(forall|i: int| 0 <= i < head.len() ==> head[i] == text[i]);
        lemma_leading_digit(head);
    }
}

/// A digit string denotes at least what any of its prefixes denotes.
pub proof fn lemma_prefix_value(text: Seq<u8>, k: int)
    requires
        0 <= k <= text.len(),
    ensures
        digits_value(text.take(k)) <= digits_value(text),
    decreases text.len(),
{
    if k == text.len() {
        assert(text.take(k) =~= text);
    } else {
        assert(text.drop_last().take(k) =~= text.take(k));
        lemma_prefix_value(text.drop_last(), k);
    }
}

/// Leading zeros add nothing to what a digit string denotes.
pub proof fn lemma_skip_zeros(text: Seq<u8>, k: int)
    requires
        0 <= k <= text.len(),
        forall|i: int| 0 <= i < k ==> text[i] == ZERO,
    ensures
        digits_value(text.skip(k)) == digits_value(text),
    decreases text.len(),
{
    if k == text.len() {
        assert(text.skip(k) =~= Seq::<u8>::empty());
        if text.len() > 0 {
            assert(forall|i: int| 0 <= i < k - 1 ==> text.drop_last()[i] == text[i]);
            lemma_skip_zeros(text.drop_last(), k - 1);
            assert(text.drop_last().skip(k - 1) =~= Seq::<u8>::empty());
            assert(text.last() == ZERO);
        }
    } else {
        assert(forall|i: int| 0 <= i < k ==> text.drop_last()[i] == text[i]);
        lemma_skip_zeros(text.drop_last(), k);
        assert(text.skip(k).drop_last() =~= text.drop_last().skip(k));
        assert(text.skip(k).last() == text.last());
    }
}

/// The decimal text of an integer denotes that integer.
pub proof fn lemma_text_round_trip(v: int)
    ensures
        text_value(decimal_text(v)) == Some(v),
        text_negative(decimal_text(v)) == (v < 0),
        text_digits(decimal_text(v)) == decimal_digits(vstd::math::abs(v) as nat),
{
    let text = decimal_text(v);
    if v < 0 {
        let digits = decimal_digits((-v) as nat);
        lemma_decimal_digits((-v) as nat);
        assert(text[0] == MINUS);
        assert(text.skip(1) =~= digits);
    } else {
        lemma_decimal_digits(v as nat);
    }
}

/// Appends the canonical digits of `v` to `text`.
pub fn push_digits(text: &mut Vec<u8>, v: u128)
    ensures
        final(text)@ == old(text)@ + decimal_digits(v as nat),
    decreases v,
{
    if v < 10 {
        text.push(ZERO + v as u8);
        assert(text@ =~= old(text)@ + decimal_digits(v as nat));
    } else {
        push_digits(text, v / 10);
        text.push(ZERO + (v % 10) as u8);
        assert(text@ =~= old(text)@ + decimal_digits(v as nat));
    }
}

/// The canonical decimal text of an unsigned integer.
pub fn render_u128(v: u128) -> (text: Vec<u8>)
    ensures
        text@ == decimal_text(v as int),
{
    let mut text: Vec<u8> = Vec::new();
    push_digits(&mut text, v);
    assert(text@ =~= decimal_digits(v as nat));
    text
}

/// The canonical decimal text of a signed integer.
pub fn render_i128(v: i128) -> (text: Vec<u8>)
    ensures
        text@ == decimal_text(v as int),
{
    let mut text: Vec<u8> = Vec::new();
    if v < 0 {
        let magnitude: u128 = (-(v + 1)) as u128 + 1;
        text.push(MINUS);
        push_digits(&mut text, magnitude);
        assert(text@ =~= seq![MINUS] + decimal_digits((-v) as nat));
    } else {
        push_digits(&mut text, v as u128);
        assert(text@ =~= decimal_digits(v as nat));
    }
    text
}

/// The magnitude that the digits of `text` from index `from` on denote.
pub fn parse_magnitude(text: &[u8], from: usize) -> (r: Option<u128>)
    requires
        from <= text@.len(),
    ensures
        r == spec_magnitude(text@.skip(from as int)),
{
    let ghost digits = text@.skip(from as int);
    if from == text.len() {
        return None;
    }
    let mut acc: u128 = 0;
    let mut i: usize = from;
    while i < text.len()
        invariant
            from <= i <= text@.len(),
            digits == text@.skip(from as int),
            all_digits(digits.take(i - from)),
            acc == digits_value(digits.take(i - from)),
        decreases text@.len() - i,
    {
        let byte = text[i];
        proof {
            assert(digits[i - from] == byte);
            assert(digits.take(i - from + 1).drop_last() =~= digits.take(i - from));
            assert(digits.take(i - from + 1).last() == byte);
        }
        if byte < 0x30 || byte > 0x39 {
            return None;
        }
        let next = match acc.checked_mul(10) {
            Some(scaled) => scaled.checked_add((byte - ZERO) as u128),
            None => None,
        };
        match next {
            Some(value) => {
                acc = value;
            },
            None => {
                proof {
                    assert(digits_value(digits.take(i - from + 1)) > u128::MAX);
                    lemma_prefix_value(digits, i - from + 1);
                }
                return None;
            },
        }
        proof {
            assert forall|j: int| 0 <= j < i - from + 1 implies is_digit(
                #[trigger] digits.take(i - from + 1)[j],
            ) by {
                if j < i - from {
                    assert(digits.take(i - from)[j] == digits.take(i - from + 1)[j]);
                }
            }
        }
        i += 1;
    }
    proof {
        assert(digits.take(i - from) =~= digits);
    }
    Some(acc)
}

/// The signed 128-bit integer that `text` denotes; none where the text is no
/// integer or the integer is out of range.
pub fn reconstruct_i128(text: &[u8]) -> (r: Option<i128>)
    ensures
        r is Some <==> (text_value(text@) matches Some(v) && i128::MIN <= v <= i128::MAX),
        r matches Some(v) ==> text_value(text@) == Some(v as int),
{
    let negative = text.len() > 0 && text[0] == MINUS;
    let from: usize = if negative {
        1
    } else {
        0
    };
    assert(text@.skip(from as int) =~= text_digits(text@));
    match parse_magnitude(text, from) {
        Some(m) => if negative {
            if m < I128_MIN_MAGNITUDE {
                Some(-(m as i128))
            } else if m == I128_MIN_MAGNITUDE {
                Some(i128::MIN)
            } else {
                None
            }
        } else {
            if m < I128_MIN_MAGNITUDE {
                Some(m as i128)
            } else {
                None
            }
        },
        None => None,
    }
}

/// The unsigned 128-bit integer that `text` denotes; none where the text is
/// no integer or the integer is out of range.
pub fn reconstruct_u128(text: &[u8]) -> (r: Option<u128>)
    ensures
        r is Some <==> (text_value(text@) matches Some(v) && 0 <= v <= u128::MAX),
        r matches Some(v) ==> text_value(text@) == Some(v as int),
{
    let negative = text.len() > 0 && text[0] == MINUS;
    let from: usize = if negative {
        1
    } else {
        0
    };
    assert(text@.skip(from as int) =~= text_digits(text@));
    match parse_magnitude(text, from) {
        Some(m) => if negative && m != 0 {
            None
        } else {
            Some(m)
        },
        None => None,
    }
}

} // verus!
