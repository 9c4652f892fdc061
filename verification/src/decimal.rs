//! Decimal ASCII text of sequence numbers and region indices, as it names
//! checkpoint directories and region files and fills the sequence pointer.

use vstd::prelude::*;

verus! {

/// The ASCII code of the digit `0`.
pub const ZERO: u8 = 48;

/// The ASCII code of the sign `+`.
pub const PLUS: u8 = 43;

/// Whether `b` is an ASCII decimal digit.
pub open spec fn is_digit(b: u8) -> bool {
    48 <= b <= 57
}

/// Whether every byte of `s` is a decimal digit.
pub open spec fn all_digits(s: Seq<u8>) -> bool {
    forall|i: int| 0 <= i < s.len() ==> is_digit(#[trigger] s[i])
}

/// The shortest decimal text of `n`: no sign, no leading zero but for `0` itself.
pub open spec fn decimal(n: nat) -> Seq<u8>
    decreases n,
{
    if n < 10 {
        seq![(48 + n) as u8]
    } else {
        decimal(n / 10).push((48 + n % 10) as u8)
    }
}

/// The number that a string of digits denotes, most significant digit first.
pub open spec fn decimal_value(s: Seq<u8>) -> nat
    decreases s.len(),
{
    if s.len() == 0 {
        0
    } else {
        decimal_value(s.drop_last()) * 10 + (s.last() - 48) as nat
    }
}

/// The digits of a number's text: the text itself, or what follows one leading `+`.
pub open spec fn unsigned_part(s: Seq<u8>) -> Seq<u8> {
    if s.len() > 0 && s[0] == 43 {
        s.subrange(1, s.len() as int)
    } else {
        s
    }
}

/// What `s` denotes as a 64-bit unsigned number: an optional `+`, then at
/// least one digit, with a value that fits; `None` for everything else.
pub open spec fn parsed(s: Seq<u8>) -> Option<u64> {
    let digits = unsigned_part(s);
    if digits.len() > 0 && all_digits(digits) && decimal_value(digits) <= u64::MAX {
        Some(decimal_value(digits) as u64)
    } else {
        None
    }
}

/// The decimal text of a number is a non-empty string of digits.
pub proof fn lemma_decimal_digits(n: nat)
    ensures
        decimal(n).len() > 0,
        all_digits(decimal(n)),
        decimal(n)[0] != 43,
    decreases n,
{
    if n >= 10 {
        lemma_decimal_digits(n / 10);
    }
}

/// Reading back the decimal text of a number gives the number.
pub proof fn lemma_decimal_value(n: nat)
    ensures
        decimal_value(decimal(n)) == n,
    decreases n,
{
    if n < 10 {
        assert(decimal(n).drop_last() =~= Seq::<u8>::empty());
        assert(decimal_value(decimal(n).drop_last()) == 0);
    } else {
        lemma_decimal_value(n / 10);
        assert(decimal(n).drop_last() =~= decimal(n / 10));
        assert(decimal(n).last() == (48 + n % 10) as u8);
    }
}

/// Distinct numbers have distinct decimal texts.
pub proof fn lemma_decimal_injective(a: nat, b: nat)
    requires
        decimal(a) == decimal(b),
    ensures
        a == b,
{
    lemma_decimal_value(a);
    lemma_decimal_value(b);
}

/// Writing a sequence number and reading it back gives the same number.
pub proof fn lemma_parse_format(n: u64)
    ensures
        parsed(decimal(n as nat)) == Some(n),
{
    lemma_decimal_digits(n as nat);
    lemma_decimal_value(n as nat);
}

/// A string of digits denotes at least what each of its prefixes denotes.
proof fn lemma_prefix_value(s: Seq<u8>, k: int)
    requires
        all_digits(s),
        0 <= k <= s.len(),
    ensures
        decimal_value(s.take(k)) <= decimal_value(s),
    decreases s.len() - k,
{
    if k == s.len() {
        assert(s.take(k) =~= s);
    } else {
        lemma_prefix_value(s, k + 1);
        assert(s.take(k + 1).drop_last() =~= s.take(k));
        assert(is_digit(s[k]));
    }
}

/// The decimal text of `n`.
pub fn format_u64(n: u64) -> (text: Vec<u8>)
    ensures
        text@ == decimal(n as nat),
    decreases n,
{
    if n < 10 {
        let d: u8 = n as u8;
        vec![48 + d]
    } else {
        let mut text = format_u64(n / 10);
        let d: u8 = (n % 10) as u8;
        text.push(48 + d);
        text
    }
}

/// Reads a 64-bit unsigned number from its decimal text.
pub fn parse_u64(text: &[u8]) -> (value: Option<u64>)
    ensures
        value == parsed(text@),
{
    let start: usize = if text.len() > 0 && text[0] == PLUS { 1 } else { 0 };
    if start == text.len() {
        return None;
    }
    let ghost digits = unsigned_part(text@);
    assert(digits =~= text@.subrange(start as int, text.len() as int));
    let mut acc: u64 = 0;
    let mut i: usize = start;
    while i < text.len()
        invariant
            start <= i <= text.len(),
            digits == unsigned_part(text@),
            digits == text@.subrange(start as int, text.len() as int),
            all_digits(digits.take(i - start)),
            acc == decimal_value(digits.take(i - start)),
        decreases text.len() - i,
    {
        let b = text[i];
        let ghost k = i - start;
        assert(digits[k] == b);
        assert(digits.take(k + 1).drop_last() =~= digits.take(k));
        if b < 48 || b > 57 {
            assert(!is_digit(digits[k]));
            return None;
        }
        let d: u64 = (b - 48) as u64;
        assert(digits.take(k + 1).last() == b);
        assert(decimal_value(digits.take(k + 1)) == acc * 10 + d);
        if acc > (u64::MAX - d) / 10 {
            proof {
                if all_digits(digits) {
                    lemma_prefix_value(digits, k + 1);
                }
            }
            return None;
        }
        acc = acc * 10 + d;
        i += 1;
    }
    assert(digits.take(i - start) =~= digits);
    Some(acc)
}

} // verus!
