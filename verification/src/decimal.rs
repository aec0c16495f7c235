//! Unsigned decimal numbers in ASCII, as length prefixes and integer frames
//! carry them.

use vstd::prelude::*;

verus! {

/// The digit `0`.
pub const ZERO: u8 = 48;

pub open spec fn is_digit(b: u8) -> bool {
    ZERO <= b <= ZERO + 9
}

/// A non-empty run of ASCII digits.
pub open spec fn is_decimal(s: Seq<u8>) -> bool {
    &&& s.len() > 0
    &&& forall|i: int| 0 <= i < s.len() ==> is_digit(#[trigger] s[i])
}

/// The number that a run of digits denotes; leading zeros count for nothing.
pub open spec fn decimal_value(s: Seq<u8>) -> nat
    decreases s.len(),
{
    if s.len() == 0 {
        0
    } else {
        10 * decimal_value(s.drop_last()) + (s.last() - ZERO) as nat
    }
}

/// What a line of text denotes as an unsigned 64-bit number: only digits
/// are accepted, and the value has to fit.
pub open spec fn decimal_of(s: Seq<u8>) -> Option<u64> {
    if is_decimal(s) && decimal_value(s) <= u64::MAX {
        Some(decimal_value(s) as u64)
    } else {
        None
    }
}

/// The decimal digits of `n`, most significant first, without leading zeros.
pub open spec fn decimal_digits(n: nat) -> Seq<u8>
    decreases n,
{
    if n < 10 {
        seq![(ZERO + n) as u8]
    } else {
        decimal_digits(n / 10).push((ZERO + n % 10) as u8)
    }
}

/// Writing a number and reading it back gives the number.
pub proof fn lemma_digits_value(n: nat)
    ensures
        is_decimal(decimal_digits(n)),
        decimal_value(decimal_digits(n)) == n,
    decreases n,
{
    if n < 10 {
        let s = decimal_digits(n);
        assert(decimal_value(s.drop_last()) == 0);
    } else {
        lemma_digits_value(n / 10);
        let s = decimal_digits(n);
        assert(s.drop_last() =~= decimal_digits(n / 10));
    }
}

/// A number below `10^k` has at most `k` digits.
pub proof fn lemma_digits_len(n: nat, k: nat)
    requires
        k >= 1,
        n < pow10(k),
    ensures
        1 <= decimal_digits(n).len() <= k,
    decreases n,
{
    if n >= 10 {
        if k == 1 {
            assert(pow10(1) == 10) by {
                reveal_with_fuel(pow10, 2);
            }
        } else {
            lemma_digits_len(n / 10, (k - 1) as nat);
        }
    }
}

pub open spec fn pow10(k: nat) -> nat
    decreases k,
{
    if k == 0 {
        1
    } else {
        10 * pow10((k - 1) as nat)
    }
}

/// An unsigned 64-bit number has at most twenty digits.
pub proof fn lemma_digits_len_u64(n: u64)
    ensures
        1 <= decimal_digits(n as nat).len() <= 20,
{
    assert(pow10(20) == 100_000_000_000_000_000_000nat) by {
        reveal_with_fuel(pow10, 21);
    }
    lemma_digits_len(n as nat, 20);
}

/// `atoi::atoi::<u64>`: on a non-empty run of ASCII digits it returns the
/// number that the digits denote, or `None` when that number does not fit
/// in 64 bits. (On other input it also accepts a sign and stops at the first
/// byte that is no digit; nothing is claimed of that here.)
#[verifier::external_body]
fn atoi_u64(text: &[u8]) -> (r: Option<u64>)
    ensures
        is_decimal(text@) ==> r == decimal_of(text@),
{
    atoi::atoi::<u64>(text)
}

/// Reads `text` as an unsigned decimal number. Anything but a non-empty run
/// of digits whose value fits in 64 bits is refused.
pub fn parse_decimal(text: &[u8]) -> (r: Option<u64>)
    ensures
        r == decimal_of(text@),
{
    if text.len() == 0 {
        return None;
    }
    let mut i: usize = 0;
    while i < text.len()
        invariant
            i <= text.len(),
            forall|j: int| 0 <= j < i ==> is_digit(#[trigger] text@[j]),
        decreases text.len() - i,
    {
        let b = text[i];
        if b < ZERO || b > ZERO + 9 {
            return None;
        }
        i += 1;
    }
    atoi_u64(text)
}

/// Appends the decimal digits of `val` to `out`. The digits are laid out in
/// a buffer on the stack, last digit first.
pub fn write_decimal(val: u64, out: &mut Vec<u8>)
    ensures
        final(out)@ == old(out)@ + decimal_digits(val as nat),
{
    let mut buf: [u8; 20] = [0u8; 20];
    let mut i: usize = 20;
    let mut v: u64 = val;
    proof {
        lemma_digits_len_u64(val);
    }
    loop
        invariant_except_break
            0 < i <= 20,
            decimal_digits(val as nat) == decimal_digits(v as nat) + buf@.subrange(i as int, 20),
            decimal_digits(v as nat).len() <= i,
        invariant
            out@ == old(out)@,
        ensures
            i < 20,
            decimal_digits(val as nat) == buf@.subrange(i as int, 20),
        decreases v,
    {
        let ghost before = buf@.subrange(i as int, 20);
        i -= 1;
        let digit: u8 = ZERO + (v % 10) as u8;
        buf[i] = digit;
        if v < 10 {
            break;
        }
        assert(decimal_digits(v as nat) + before =~= decimal_digits((v / 10) as nat)
            + buf@.subrange(i as int, 20));
        v = v / 10;
    }
    let mut j: usize = i;
    while j < 20
        invariant
            i <= j <= 20,
            out@ == old(out)@ + buf@.subrange(i as int, j as int),
        decreases 20 - j,
    {
        out.push(buf[j]);
        j += 1;
    }
}

} // verus!
