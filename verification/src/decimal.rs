//! Decimal output of unsigned numbers over the serial port.
//!
//! The serial driver prints a number by sending its decimal digits as ASCII
//! characters, most significant first, with no sign and no leading zeros
//! (zero is sent as a single `0`).
use vstd::prelude::*;

verus! {

/// ASCII code of the digit `0`.
pub const ASCII_ZERO: u8 = 48;

/// The ASCII decimal representation of `n`.
pub open spec fn decimal_digits(n: nat) -> Seq<u8>
    decreases n,
{
    if n < 10 {
        seq![(ASCII_ZERO + n) as u8]
    } else {
        decimal_digits(n / 10).push((ASCII_ZERO + n % 10) as u8)
    }
}

/// The number that a sequence of ASCII decimal digits denotes.
pub open spec fn digits_value(s: Seq<u8>) -> int
    decreases s.len(),
{
    if s.len() == 0 {
        0
    } else {
        10 * digits_value(s.drop_last()) + (s.last() - ASCII_ZERO)
    }
}

/// The bytes the serial driver sends to print `n`: its decimal digits, most
/// significant first.
pub fn u32_to_decimal(n: u32) -> (r: Vec<u8>)
    ensures
        r@ == decimal_digits(n as nat),
{
    if n == 0 {
        let mut r: Vec<u8> = Vec::new();
        r.push(ASCII_ZERO);
        return r;
    }
    // Collect the digits least significant first.

    let mut reversed: Vec<u8> = Vec::new();
    let mut m = n;
    while m > 0
        invariant
            m <= n,
            m > 0 ==> decimal_digits(n as nat) == decimal_digits(m as nat) + reversed@.reverse(),
            m == 0 ==> decimal_digits(n as nat) == reversed@.reverse(),
            n > 0,
        decreases m,
    {
        let d = (m % 10) as u8;
        let ghost old_rev = reversed@;
        reversed.push(ASCII_ZERO + d);
        if m >= 10 {
            assert(decimal_digits(m as nat) == decimal_digits((m / 10) as nat).push(
                (ASCII_ZERO + m % 10) as u8,
            ));
            assert(decimal_digits((m / 10) as nat).push((ASCII_ZERO + m % 10) as u8)
                + old_rev.reverse() =~= decimal_digits((m / 10) as nat) + reversed@.reverse());
        }
        m = m / 10;
    }
    // Send them most significant first.
    let mut r: Vec<u8> = Vec::new();
    let k = reversed.len();
    let mut j: usize = 0;
    while j < k
        invariant
            j <= k,
            k == reversed@.len(),
            r@ == reversed@.reverse().take(j as int),
        decreases k - j,
    {
        r.push(reversed[k - 1 - j]);
        j += 1;
    }
    r
}

/// The printed digits are ASCII digits, denote `n`, and carry no leading zero
/// (unless `n` is zero itself).
pub proof fn lemma_decimal_digits(n: nat)
    ensures
        decimal_digits(n).len() >= 1,
        forall|i: int|
            0 <= i < decimal_digits(n).len() ==> ASCII_ZERO <= #[trigger] decimal_digits(n)[i]
                <= ASCII_ZERO + 9,
        digits_value(decimal_digits(n)) == n,
        n > 0 ==> decimal_digits(n)[0] != ASCII_ZERO,
    decreases n,
{
    if n < 10 {
        let s = decimal_digits(n);
        assert(digits_value(s.drop_last()) == 0);
    } else {
        lemma_decimal_digits(n / 10);
        let s = decimal_digits(n);
        let p = decimal_digits(n / 10);
        assert(s.drop_last() =~= p);
        vstd::arithmetic::div_mod::lemma_fundamental_div_mod(n as int, 10);
    }
}

/// A `u32` prints as at most ten digits.
pub proof fn lemma_decimal_len(n: nat)
    requires
        n < 0x1_0000_0000,
    ensures
        decimal_digits(n).len() <= 10,
{
    reveal_with_fuel(pow10, 11);
    lemma_decimal_len_below(n, 10);
}

/// A number below `10^k` prints as at most `k` digits.
proof fn lemma_decimal_len_below(n: nat, k: nat)
    requires
        k >= 1,
        n < pow10(k),
    ensures
        decimal_digits(n).len() <= k,
    decreases n,
{
    if n >= 10 {
        if k == 1 {
            assert(pow10(1) == 10) by {
                reveal_with_fuel(pow10, 2);
            }
        }
        vstd::arithmetic::div_mod::lemma_fundamental_div_mod(n as int, 10);
        lemma_decimal_len_below(n / 10, (k - 1) as nat);
    }
}

/// Powers of ten.
pub open spec fn pow10(k: nat) -> nat
    decreases k,
{
    if k == 0 {
        1
    } else {
        10 * pow10((k - 1) as nat)
    }
}

} // verus!
