//! Helpers on texts: their characters and bytes, and the numbers and truth
//! values that they spell.

use vstd::prelude::*;
use vstd::std_specs::iter::IteratorSpec;
use vstd::utf8::{
    decode_utf8, encode_utf8, encode_utf8_decode_utf8, encode_utf8_first_scalar,
    encode_utf8_valid_utf8, is_char_boundary, pop_first_scalar,
};

verus! {

/// Whether `text` begins with the characters of `prefix`.
pub fn starts_with(text: &str, prefix: &str) -> (found: bool)
    ensures
        found == prefix@.is_prefix_of(text@),
{
    let mut rest = text.chars();
    let mut wanted = prefix.chars();
    let ghost mut seen: int = 0;
    loop
        invariant
            0 <= seen <= prefix@.len(),
            seen <= text@.len(),
            wanted.remaining() == prefix@.skip(seen),
            rest.remaining() == text@.skip(seen),
            text@.take(seen) == prefix@.take(seen),
        decreases prefix@.len() - seen,
    {
        match wanted.next() {
            None => {
                return true;
            },
            Some(p) => {
                match rest.next() {
                    None => {
                        return false;
                    },
                    Some(t) => {
                        if t != p {
                            return false;
                        }
                        proof {
                            seen = seen + 1;
                        }
                    },
                }
            },
        }
    }
}

/// Whether `a` and `b` hold the same characters.
pub fn same(a: &str, b: &str) -> (equal: bool)
    ensures
        equal == (a@ == b@),
{
    let equal = a.unicode_len() == b.unicode_len() && starts_with(a, b);
    proof {
        if equal {
            assert(a@.subrange(0, b@.len() as int) == a@);
        }
    }
    equal
}

/// The bytes of two texts in a row are the bytes of the first followed by
/// those of the second.
pub proof fn lemma_bytes_of_both(first: Seq<char>, second: Seq<char>)
    ensures
        encode_utf8(first + second) == encode_utf8(first) + encode_utf8(second),
    decreases first.len(),
{
    if first.len() == 0 {
        assert(first + second == second);
    } else {
        assert((first + second).drop_first() == first.drop_first() + second);
        lemma_bytes_of_both(first.drop_first(), second);
    }
}

/// Where one text ends and the next begins, a character begins.
pub proof fn lemma_boundary_between(first: Seq<char>, second: Seq<char>)
    ensures
        is_char_boundary(encode_utf8(first + second), encode_utf8(first).len() as int),
    decreases first.len(),
{
    let bytes = encode_utf8(first + second);
    encode_utf8_valid_utf8(first + second);
    if first.len() > 0 {
        let rest = first.drop_first();
        assert((first + second).drop_first() == rest + second);
        encode_utf8_first_scalar(first + second);
        assert(pop_first_scalar(bytes) =~= encode_utf8(rest + second));
        lemma_boundary_between(rest, second);
        lemma_bytes_of_both(first, second);
    }
}

/// What is left of the bytes of two texts in a row, once the bytes of the
/// first are taken away, reads as the second.
pub proof fn lemma_rest_after(first: Seq<char>, second: Seq<char>)
    ensures
        decode_utf8(encode_utf8(first + second).skip(encode_utf8(first).len() as int)) == second,
{
    lemma_bytes_of_both(first, second);
    assert((encode_utf8(first) + encode_utf8(second)).skip(encode_utf8(first).len() as int)
        == encode_utf8(second));
    encode_utf8_decode_utf8(second);
}

/// Whether `c` is one of the ten ASCII decimal digits.
pub open spec fn is_digit(c: char) -> bool {
    '0' <= c <= '9'
}

/// The value of a run of decimal digits, most significant first.
pub open spec fn digits_value(digits: Seq<char>) -> nat
    decreases digits.len(),
{
    if digits.len() == 0 {
        0
    } else {
        digits_value(digits.drop_last()) * 10 + (digits.last() as nat - '0' as nat) as nat
    }
}

/// What is left of `text` once one leading `+` is taken away.
pub open spec fn unsigned_part(text: Seq<char>) -> Seq<char> {
    if text.len() > 0 && text[0] == '+' {
        text.skip(1)
    } else {
        text
    }
}

/// The number that `text` denotes in decimal: an optional `+`, then one or
/// more digits whose value fits in 32 bits. Anything else denotes no number.
pub open spec fn decimal_u32(text: Seq<char>) -> Option<u32> {
    let digits = unsigned_part(text);
    if digits.len() > 0 && (forall|i: int| 0 <= i < digits.len() ==> is_digit(#[trigger] digits[i]))
        && digits_value(digits) <= u32::MAX {
        Some(digits_value(digits) as u32)
    } else {
        None
    }
}

/// A longer run of digits is worth at least as much as any prefix of it.
proof fn lemma_digits_value_grows(digits: Seq<char>, n: int)
    requires
        0 <= n <= digits.len(),
        forall|i: int| 0 <= i < digits.len() ==> is_digit(#[trigger] digits[i]),
    ensures
        digits_value(digits.take(n)) <= digits_value(digits),
    decreases digits.len() - n,
{
    if n == digits.len() {
        assert(digits.take(n) == digits);
    } else {
        lemma_digits_value_grows(digits, n + 1);
        assert(digits.take(n + 1).drop_last() == digits.take(n));
    }
}

/// Once a prefix of the digits is worth more than 32 bits hold, no number
/// is denoted, whatever follows.
proof fn lemma_overflow_stays(text: Seq<char>, n: int)
    requires
        0 <= n <= unsigned_part(text).len(),
        digits_value(unsigned_part(text).take(n)) > u32::MAX,
    ensures
        decimal_u32(text) is None,
{
    let digits = unsigned_part(text);
    if forall|i: int| 0 <= i < digits.len() ==> is_digit(#[trigger] digits[i]) {
        lemma_digits_value_grows(digits, n);
    }
}

/// Reads `text` as a decimal number of 32 bits.
pub fn parse_u32(text: &str) -> (number: Option<u32>)
    ensures
        number == decimal_u32(text@),
{
    let ghost digits = unsigned_part(text@);
    let ghost mut seen: int = 0;
    let mut value: u32 = 0;
    let mut any: bool = false;
    let mut signed: bool = false;
    for c in it: text.chars()
        invariant
            it.seq() == text@,
            digits == unsigned_part(text@),
            signed == (it.index() > 0 && text@[0] == '+'),
            seen == it.index() - if signed { 1int } else { 0int },
            any == (seen > 0),
            forall|i: int| 0 <= i < seen ==> is_digit(#[trigger] digits[i]),
            value == digits_value(digits.take(seen)),
    {
        if !any && !signed && c == '+' {
            signed = true;
        } else {
            assert(c == digits[seen]);
            if !(c >= '0' && c <= '9') {
                return None;
            }
            let digit: u32 = c as u32 - '0' as u32;
            proof {
                assert(digits.take(seen + 1).drop_last() == digits.take(seen));
                if value * 10 + digit > u32::MAX {
                    lemma_overflow_stays(text@, seen + 1);
                }
            }
            let scaled = match value.checked_mul(10) {
                Some(scaled) => scaled,
                None => {
                    return None;
                },
            };
            value = match scaled.checked_add(digit) {
                Some(sum) => sum,
                None => {
                    return None;
                },
            };
            any = true;
            proof {
                seen = seen + 1;
            }
        }
    }
    proof {
        assert(digits.take(seen) == digits);
    }
    if any {
        Some(value)
    } else {
        None
    }
}

/// The truth value that `text` names: `true` or `false`, spelled exactly so.
pub open spec fn truth_value(text: Seq<char>) -> Option<bool> {
    if text == "true"@ {
        Some(true)
    } else if text == "false"@ {
        Some(false)
    } else {
        None
    }
}

/// Reads `text` as a truth value.
pub fn parse_bool(text: &str) -> (value: Option<bool>)
    ensures
        value == truth_value(text@),
{
    if same(text, "true") {
        Some(true)
    } else if same(text, "false") {
        Some(false)
    } else {
        None
    }
}

} // verus!
