//! Decimal numbers in text.

use vstd::prelude::*;

verus! {

/// `c` is a decimal digit.
pub open spec fn is_digit(c: char) -> bool {
    '0' <= c <= '9'
}

/// The value of the decimal digit `c`.
pub open spec fn digit_value(c: char) -> nat {
    (c as u32 - 48) as nat
}

/// The `width` characters of `s` from `from` on are decimal digits.
pub open spec fn digits_at(s: Seq<char>, from: int, width: nat) -> bool {
    forall|i: int| from <= i < from + width ==> is_digit(#[trigger] s[i])
}

/// The number that the `width` digits of `s` from `from` on spell.
pub open spec fn number_at(s: Seq<char>, from: int, width: nat) -> nat
    decreases width,
{
    if width == 0 {
        0
    } else {
        number_at(s, from, (width - 1) as nat) * 10 + digit_value(s[from + width - 1])
    }
}

/// Every digit counts: a number read from more digits, all else equal, is no
/// smaller.
proof fn lemma_number_at_grows(s: Seq<char>, from: int, width: nat)
    requires
        width > 0,
    ensures
        number_at(s, from, width) >= number_at(s, from, (width - 1) as nat),
{
    assert(number_at(s, from, (width - 1) as nat) * 10 >= number_at(s, from, (width - 1) as nat))
        by (nonlinear_arith)
        requires
            number_at(s, from, (width - 1) as nat) >= 0,
    ;
}

/// The unsigned number written at `from .. to` of `s`: one or more decimal
/// digits, with a `+` in front if one likes, and a value that fits 32 bits.
pub open spec fn u32_at(s: Seq<char>, from: int, to: int) -> Option<u32> {
    let start = if from < to && s[from] == '+' {
        from + 1
    } else {
        from
    };
    if 0 <= from && start < to <= s.len() && digits_at(s, start, (to - start) as nat) && number_at(
        s,
        start,
        (to - start) as nat,
    ) <= u32::MAX {
        Some(number_at(s, start, (to - start) as nat) as u32)
    } else {
        None
    }
}

/// `bytes` are the bytes of the text `chars`, which is plain ASCII.
pub open spec fn ascii_bytes(bytes: Seq<u8>, chars: Seq<char>) -> bool {
    &&& bytes.len() == chars.len()
    &&& forall|i: int| 0 <= i < chars.len() ==> '\0' <= #[trigger] chars[i] <= '\u{7f}'
    &&& forall|i: int| 0 <= i < chars.len() ==> #[trigger] bytes[i] == chars[i] as u8
}

/// Reads the unsigned number written at `from .. to` of a text.
pub(crate) fn read_u32(bytes: &[u8], from: usize, to: usize, Ghost(chars): Ghost<Seq<char>>) -> (value:
    Option<u32>)
    requires
        ascii_bytes(bytes@, chars),
    ensures
        value == u32_at(chars, from as int, to as int),
{
    let n = bytes.len();
    if from >= to || to > n {
        return None;
    }
    assert(bytes@[from as int] == chars[from as int] as u8);
    let start: usize = if bytes[from] == 43 {
        from + 1
    } else {
        from
    };
    if start >= to {
        return None;
    }
    let mut value: u32 = 0;
    let mut i: usize = start;
    while i < to
        invariant
            n == bytes@.len(),
            ascii_bytes(bytes@, chars),
            from < to,
            start == (if chars[from as int] == '+' {
                from + 1
            } else {
                from as int
            }),
            start <= i <= to <= n,
            digits_at(chars, start as int, (i - start) as nat),
            value == number_at(chars, start as int, (i - start) as nat),
        decreases to - i,
    {
        let b = bytes[i];
        let ghost c = chars[i as int];
        assert(b == c as u8);
        if b < 48 || b > 57 {
            assert(!is_digit(c));
            assert(!digits_at(chars, start as int, (to - start) as nat));
            return None;
        }
        let digit: u32 = (b - 48) as u32;
        proof {
            assert(is_digit(c));
            assert(digit_value(c) == digit);
            assert forall|j: int| start <= j < i + 1 implies is_digit(#[trigger] chars[j]) by {
                if j < i {
                    assert(is_digit(chars[j]));
                }
            }
        }
        if value > (u32::MAX - digit) / 10 {
            proof {
                let width = (i + 1 - start) as nat;
                assert(number_at(chars, start as int, width) > u32::MAX);
                lemma_number_at_monotone(chars, start as int, width, (to - start) as nat);
            }
            return None;
        }
        value = value * 10 + digit;
        i = i + 1;
    }
    Some(value)
}

/// A number read from more digits is no smaller.
proof fn lemma_number_at_monotone(s: Seq<char>, from: int, shorter: nat, longer: nat)
    requires
        shorter <= longer,
    ensures
        number_at(s, from, shorter) <= number_at(s, from, longer),
    decreases longer - shorter,
{
    if shorter < longer {
        lemma_number_at_monotone(s, from, shorter, (longer - 1) as nat);
        lemma_number_at_grows(s, from, longer);
    }
}

} // verus!
