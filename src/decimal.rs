//! Contributed amounts are written as decimal strings, since the text format
//! cannot carry 128-bit integers natively.

use crate::error::LoadError;
use vstd::prelude::*;
use vstd::string::StringSliceAdditionalSpecFns;
use vstd::utf8::encode_utf8;

verus! {

/// The byte of the ASCII digit zero.
pub const ZERO_DIGIT: u8 = 48;

/// The byte of the ASCII plus sign.
pub const PLUS_SIGN: u8 = 43;

pub open spec fn is_digit(b: u8) -> bool {
    ZERO_DIGIT <= b && b <= ZERO_DIGIT + 9
}

pub open spec fn all_digits(s: Seq<u8>) -> bool {
    forall|i: int| 0 <= i < s.len() ==> is_digit(#[trigger] s[i])
}

/// The number that a string of decimal digits denotes, most significant first.
pub open spec fn digits_value(s: Seq<u8>) -> int
    decreases s.len(),
{
    if s.len() == 0 {
        0
    } else {
        digits_value(s.drop_last()) * 10 + (s.last() - ZERO_DIGIT)
    }
}

/// The digits of an unsigned number, after an optional leading `+`.
pub open spec fn unsigned_digits(s: Seq<u8>) -> Seq<u8> {
    if s.len() > 0 && s[0] == PLUS_SIGN {
        s.drop_first()
    } else {
        s
    }
}

/// `s` is an optional `+` followed by one or more decimal digits.
pub open spec fn is_decimal(s: Seq<u8>) -> bool {
    unsigned_digits(s).len() > 0 && all_digits(unsigned_digits(s))
}

/// A text is a well-formed contributed amount: decimal, and within 128 bits.
pub open spec fn is_balance_text(text: Seq<char>) -> bool {
    is_decimal(encode_utf8(text)) && digits_value(unsigned_digits(encode_utf8(text))) <= u128::MAX
}

/// The amount that a well-formed text denotes.
pub open spec fn balance_text_value(text: Seq<char>) -> int {
    digits_value(unsigned_digits(encode_utf8(text)))
}

/// Extending a string of digits never lowers its value.
proof fn lemma_digits_value_prefix(s: Seq<u8>, i: int, j: int)
    requires
        all_digits(s),
        0 <= i <= j <= s.len(),
    ensures
        digits_value(s.take(i)) <= digits_value(s.take(j)),
        digits_value(s.take(j)) >= 0,
    decreases j,
{
    if j == 0 {
        assert(s.take(0).len() == 0);
    } else {
        assert(s.take(j).drop_last() == s.take(j - 1));
        assert(s.take(j).last() == s[j - 1]);
        if i < j {
            lemma_digits_value_prefix(s, i, j - 1);
        } else {
            lemma_digits_value_prefix(s, j - 1, j - 1);
        }
        assert(is_digit(s[j - 1]));
    }
}

/// Parses a contributed amount: an optional `+` and one or more decimal
/// digits whose value fits in 128 bits.
pub fn parse_balance(text: &str) -> (res: Result<u128, LoadError>)
    ensures
        res is Ok <==> is_decimal(text.spec_bytes()) && digits_value(
            unsigned_digits(text.spec_bytes()),
        ) <= u128::MAX,
        res matches Ok(v) ==> v == digits_value(unsigned_digits(text.spec_bytes())),
        res matches Err(e) ==> e == LoadError::InvalidNumber,
{
    let bytes = text.as_bytes();
    let ghost all = bytes@;
    let len = bytes.len();
    let start: usize = if len > 0 && bytes[0] == PLUS_SIGN {
        1
    } else {
        0
    };
    let ghost digits = unsigned_digits(all);
    assert(digits == all.subrange(start as int, len as int));
    if start == len {
        return Err(LoadError::InvalidNumber);
    }
    let mut value: u128 = 0;
    let mut i: usize = start;
    while i < len
        invariant
            bytes@ == all,
            all == text.spec_bytes(),
            digits == unsigned_digits(all),
            len == all.len(),
            digits == all.subrange(start as int, len as int),
            start <= i <= len,
            all_digits(digits.take(i - start)),
            value == digits_value(digits.take(i - start)),
        decreases len - i,
    {
        let b = bytes[i];
        let ghost k = i - start;
        assert(digits[k] == b);
        if b < ZERO_DIGIT || b > ZERO_DIGIT + 9 {
            assert(!is_digit(digits[k]));
            return Err(LoadError::InvalidNumber);
        }
        assert(digits.take(k + 1).drop_last() == digits.take(k));
        assert(digits.take(k + 1).last() == b);
        assert(all_digits(digits.take(k + 1)));
        let next = match value.checked_mul(10) {
            None => None,
            Some(m) => m.checked_add((b - ZERO_DIGIT) as u128),
        };
        match next {
            None => {
                proof {
                    if all_digits(digits) {
                        lemma_digits_value_prefix(digits, k + 1, digits.len() as int);
                        assert(digits.take(digits.len() as int) == digits);
                        assert(digits_value(digits.take(k + 1)) > u128::MAX);
                    }
                }
                return Err(LoadError::InvalidNumber);
            },
            Some(v) => {
                value = v;
            },
        }
        i = i + 1;
    }
    assert(digits.take(i - start) == digits);
    Ok(value)
}

} // verus!
