//! The decimal digits of a block header: the digit count and the length field.

use vstd::prelude::*;

verus! {

/// The byte `0`, the first of the ten decimal digits.
pub const ZERO: u8 = 0x30;

/// The byte `9`, the last of the ten decimal digits.
pub const NINE: u8 = 0x39;

/// The longest payload that a block can declare: its length must be written
/// with at most nine digits, for the digit count is a single digit.
pub const MAX_PAYLOAD: usize = 999_999_999;

/// Whether `b` is one of the bytes `0` to `9`.
pub open spec fn is_digit(b: u8) -> bool {
    ZERO <= b <= NINE
}

/// The number that the digit `b` stands for.
pub open spec fn digit_value(b: u8) -> nat
    recommends
        is_digit(b),
{
    (b - ZERO) as nat
}

/// Whether every byte of `s` is a decimal digit.
pub open spec fn all_digits(s: Seq<u8>) -> bool {
    forall|i: int| 0 <= i < s.len() ==> is_digit(#[trigger] s[i])
}

/// The number that the digits `s` write in base ten, most significant digit
/// first. Leading zeros do not change it, and no digits at all write zero.
pub open spec fn decimal_value(s: Seq<u8>) -> nat
    recommends
        all_digits(s),
    decreases s.len(),
{
    if s.len() == 0 {
        0
    } else {
        10 * decimal_value(s.drop_last()) + digit_value(s.last())
    }
}

/// The payload length that a length field declares: its decimal value, where
/// the field holds digits only and the value fits the machine's `usize`.
pub open spec fn declared_length(field: Seq<u8>) -> Option<nat> {
    if all_digits(field) && decimal_value(field) <= usize::MAX {
        Some(decimal_value(field))
    } else {
        None
    }
}

/// Reads the digit-count byte of a block header: the number of bytes in the
/// length field that follows, or `None` where `b` is not a decimal digit.
pub fn digit_count(b: u8) -> (count: Option<usize>)
    ensures
        is_digit(b) ==> count == Some(digit_value(b) as usize),
        !is_digit(b) ==> count is None,
{
    if ZERO <= b && b <= NINE {
        Some((b - ZERO) as usize)
    } else {
        None
    }
}

/// Reads a length field: `Some` of the declared payload length, or `None`
/// where a byte is not a digit or the value does not fit `usize`.
pub fn parse_length(field: &[u8]) -> (length: Option<usize>)
    ensures
        match length {
            Some(n) => declared_length(field@) == Some(n as nat),
            None => declared_length(field@) is None,
        },
{
    let mut value: usize = 0;
    let mut i: usize = 0;
    while i < field.len()
        invariant
            i <= field.len(),
            all_digits(field@.take(i as int)),
            value == decimal_value(field@.take(i as int)),
        decreases field.len() - i,
    {
        let b: u8 = field[i];
        proof {
            assert(field@.take(i + 1).drop_last() =~= field@.take(i as int));
            assert(field@.take(i + 1).last() == b);
        }
        if !(ZERO <= b && b <= NINE) {
            proof {
                assert(!is_digit(field@[i as int]));
            }
            return None;
        }
        let digit: usize = (b - ZERO) as usize;
        let next: Option<usize> = match value.checked_mul(10) {
            Some(scaled) => scaled.checked_add(digit),
            None => None,
        };
        match next {
            Some(v) => {
                value = v;
            },
            None => {
                proof {
                    lemma_decimal_value_prefix(field@, i + 1);
                }
                return None;
            },
        }
        i = i + 1;
    }
    proof {
        assert(field@.take(i as int) =~= field@);
    }
    Some(value)
}

/// The value of a prefix of digits never exceeds the value of the whole.
pub proof fn lemma_decimal_value_prefix(s: Seq<u8>, n: int)
    requires
        0 <= n <= s.len(),
    ensures
        decimal_value(s.take(n)) <= decimal_value(s),
    decreases s.len() - n,
{
    if n < s.len() {
        lemma_decimal_value_prefix(s, n + 1);
        assert(s.take(n + 1).drop_last() =~= s.take(n));
    } else {
        assert(s.take(n) =~= s);
    }
}

/// The digits that write `n` in base ten, without leading zeros; zero is
/// written as the one digit `0`.
pub open spec fn decimal_digits(n: nat) -> Seq<u8>
    decreases n,
{
    if n < 10 {
        seq![(ZERO + n) as u8]
    } else {
        decimal_digits(n / 10).push((ZERO + n % 10) as u8)
    }
}

/// Ten to the power `e`.
pub open spec fn pow10(e: nat) -> nat
    decreases e,
{
    if e == 0 {
        1
    } else {
        10 * pow10((e - 1) as nat)
    }
}

/// Writing a number and reading the digits back gives the number.
pub proof fn lemma_decimal_digits_value(n: nat)
    ensures
        decimal_digits(n).len() >= 1,
        all_digits(decimal_digits(n)),
        decimal_value(decimal_digits(n)) == n,
    decreases n,
{
    let d = decimal_digits(n);
    if n < 10 {
        assert(d.drop_last() =~= Seq::<u8>::empty());
        assert(decimal_value(d.drop_last()) == 0);
    } else {
        lemma_decimal_digits_value(n / 10);
        assert(d.drop_last() =~= decimal_digits(n / 10));
    }
}

/// A number below ten to the power `e` is written with at most `e` digits.
pub proof fn lemma_decimal_digits_len(n: nat, e: nat)
    requires
        e >= 1,
        n < pow10(e),
    ensures
        decimal_digits(n).len() <= e,
    decreases e,
{
    if n >= 10 {
        assert(pow10(1) == 10) by {
            reveal_with_fuel(pow10, 2);
        }
        assert(e >= 2);
        assert(n / 10 < pow10((e - 1) as nat));
        lemma_decimal_digits_len(n / 10, (e - 1) as nat);
    }
}

/// The value of a run of digits is below ten to the power of their count.
pub proof fn lemma_decimal_value_bound(s: Seq<u8>)
    requires
        all_digits(s),
    ensures
        decimal_value(s) < pow10(s.len()),
    decreases s.len(),
{
    if s.len() > 0 {
        lemma_decimal_value_bound(s.drop_last());
    }
}

/// A length field of at most nine digits always declares a length: the
/// number fits `usize` on every machine.
pub proof fn lemma_nine_digits_fit(field: Seq<u8>)
    requires
        all_digits(field),
        field.len() <= 9,
    ensures
        declared_length(field) == Some(decimal_value(field)),
        decimal_value(field) <= MAX_PAYLOAD,
{
    lemma_decimal_value_bound(field);
    lemma_pow10_monotonic(field.len(), 9);
    assert(pow10(9) == 1_000_000_000) by {
        reveal_with_fuel(pow10, 10);
    }
}

/// Ten to a smaller power is no larger.
pub proof fn lemma_pow10_monotonic(a: nat, b: nat)
    requires
        a <= b,
    ensures
        pow10(a) <= pow10(b),
    decreases b,
{
    if a < b {
        lemma_pow10_monotonic(a, (b - 1) as nat);
    }
}

} // verus!
