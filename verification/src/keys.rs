//! Reading postal codes and provider ids from text.

use vstd::prelude::*;
use vstd::string::is_ascii_spec_bytes;

verus! {

/// The character is a decimal digit.
pub open spec fn is_digit(c: char) -> bool {
    '0' <= c <= '9'
}

/// Every character is a decimal digit.
pub open spec fn all_digits(text: Seq<char>) -> bool {
    forall|i: int| 0 <= i < text.len() ==> is_digit(#[trigger] text[i])
}

/// The number a sequence of decimal digits writes, most significant digit
/// first.
pub open spec fn decimal_value(digits: Seq<char>) -> nat
    decreases digits.len(),
{
    if digits.len() == 0 {
        0
    } else {
        decimal_value(digits.drop_last()) * 10 + (digits.last() as nat - '0' as nat) as nat
    }
}

/// The key a text writes: an optional `+`, then one or more decimal digits
/// whose value fits 32 bits. Any other text writes no key.
pub open spec fn key_spec(text: Seq<char>) -> Option<u32> {
    let digits = if text.len() > 0 && text[0] == '+' {
        text.drop_first()
    } else {
        text
    };
    if digits.len() > 0 && all_digits(digits) && decimal_value(digits) <= u32::MAX {
        Some(decimal_value(digits) as u32)
    } else {
        None
    }
}

/// The digits read so far never write more than all the digits do.
proof fn lemma_prefix_value(digits: Seq<char>, k: int)
    requires
        all_digits(digits),
        0 <= k <= digits.len(),
    ensures
        decimal_value(digits.subrange(0, k)) <= decimal_value(digits),
    decreases digits.len(),
{
    if k == digits.len() {
        assert(digits.subrange(0, k) =~= digits);
    } else {
        let front = digits.drop_last();
        assert forall|i: int| 0 <= i < front.len() implies is_digit(#[trigger] front[i]) by {
            assert(front[i] == digits[i]);
        }
        lemma_prefix_value(front, k);
        assert(front.subrange(0, k) =~= digits.subrange(0, k));
        assert(is_digit(digits[digits.len() - 1]));
    }
}

/// Reads a postal code or a provider id from text.
pub fn parse_key(text: &str) -> (key: Option<u32>)
    ensures
        key == key_spec(text@),
{
    broadcast use is_ascii_spec_bytes;

    if !text.is_ascii() {
        proof {
            let i = choose|i: int|
                0 <= i < text@.len() && !('\0' <= #[trigger] text@[i] <= '\u{7f}');
            if text@[0] == '+' {
                assert(text@.drop_first()[i - 1] == text@[i]);
            }
        }
        return None;
    }
    let bytes = text.as_bytes();
    let n: usize = bytes.len();
    let start: usize = if n > 0 && bytes[0] == 43 {
        1
    } else {
        0
    };
    let ghost digits = if text@.len() > 0 && text@[0] == '+' {
        text@.drop_first()
    } else {
        text@
    };
    proof {
        assert(bytes@.len() == text@.len());
        assert(n > 0 ==> bytes@[0] == text@[0] as u8);
        assert(digits.len() == n - start);
        assert forall|i: int| 0 <= i < digits.len() implies #[trigger] digits[i] == text@[i
            + start] by {}
    }
    if start == n {
        return None;
    }
    let mut value: u32 = 0;
    let mut i: usize = start;
    assert(digits.subrange(0, 0) =~= Seq::empty());
    while i < n
        invariant
            start <= i <= n,
            n == bytes@.len(),
            bytes@.len() == text@.len(),
            digits.len() == n - start,
            digits == if text@.len() > 0 && text@[0] == '+' {
                text@.drop_first()
            } else {
                text@
            },
            forall|j: int| 0 <= j < digits.len() ==> #[trigger] digits[j] == text@[j + start],
            forall|j: int| 0 <= j < n ==> #[trigger] bytes@[j] == text@[j] as u8,
            forall|j: int| 0 <= j < n ==> '\0' <= #[trigger] text@[j] <= '\u{7f}',
            all_digits(digits.subrange(0, i - start)),
            value == decimal_value(digits.subrange(0, i - start)),
        decreases n - i,
    {
        let b: u8 = bytes[i];
        let ghost c = text@[i as int];
        assert(b == c as u8);
        assert(digits[i - start] == c);
        if b < 48 || b > 57 {
            assert(!is_digit(c));
            return None;
        }
        let digit: u32 = (b - 48) as u32;
        let ghost upto = digits.subrange(0, i - start + 1);
        proof {
            assert(upto.drop_last() =~= digits.subrange(0, i - start));
            assert(upto.last() == c);
            assert(decimal_value(upto) == value * 10 + digit);
            assert forall|j: int| 0 <= j < upto.len() implies is_digit(#[trigger] upto[j]) by {
                if j < i - start {
                    assert(digits.subrange(0, i - start)[j] == upto[j]);
                }
            }
        }
        if value > (u32::MAX - digit) / 10 {
            proof {
                if all_digits(digits) {
                    lemma_prefix_value(digits, i - start + 1);
                }
            }
            return None;
        }
        value = value * 10 + digit;
        i = i + 1;
    }
    assert(digits.subrange(0, i - start) =~= digits);
    Some(value)
}

} // verus!
