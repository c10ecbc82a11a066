//! Decimal and hexadecimal text of integers, padded to a width.
use vstd::prelude::*;

verus! {

/// Calls `String::push`: appends `c` to the end of `s`.
#[verifier::external_body]
pub(crate) fn push_char(s: &mut String, c: char)
    ensures
        final(s)@ == old(s)@.push(c),
{
    s.push(c)
}

/// The character of digit `d` (below 16): `0`-`9`, then `A`-`F`.
pub open spec fn digit_char(d: nat) -> char {
    if d < 10 {
        (48 + d) as char
    } else {
        (55 + d) as char
    }
}

/// The digits of `n` in base `base` (10 or 16), most significant first,
/// without leading zeros (`0` has the one digit `0`).
pub open spec fn digits(n: nat, base: nat) -> Seq<char>
    recommends
        base == 10 || base == 16,
    decreases n,
{
    if base < 2 || n < base {
        seq![digit_char(n)]
    } else {
        proof {
            assert(n / base < n) by (nonlinear_arith)
                requires
                    base >= 2,
                    n >= base,
            ;
        }
        digits(n / base, base).push(digit_char(n % base))
    }
}

/// `count` copies of `c`.
pub open spec fn repeat(c: char, count: nat) -> Seq<char>
    decreases count,
{
    if count == 0 {
        seq![]
    } else {
        repeat(c, (count - 1) as nat).push(c)
    }
}

/// `s`, preceded by as many `fill` as it takes to make it `width` long.
pub open spec fn pad_left(s: Seq<char>, width: nat, fill: char) -> Seq<char> {
    if s.len() < width {
        repeat(fill, (width - s.len()) as nat) + s
    } else {
        s
    }
}

/// The character of digit `d`.
pub fn digit_to_char(d: u64) -> (c: char)
    requires
        d < 16,
    ensures
        c == digit_char(d as nat),
{
    let v: u8 = if d < 10 {
        48 + d as u8
    } else {
        55 + d as u8
    };
    v as char
}

/// The number of digits of `n` in base `base`.
pub fn digit_count(n: u64, base: u64) -> (r: usize)
    requires
        base == 10 || base == 16,
    ensures
        r == digits(n as nat, base as nat).len(),
        r <= 20,
    decreases n,
{
    if n < base {
        1
    } else {
        let r = digit_count(n / base, base);
        proof {
            lemma_digits_len_bound(n as nat, base as nat);
        }
        r + 1
    }
}

/// A number below 2^64 has at most 20 digits in base 10 or 16.
proof fn lemma_digits_len_bound(n: nat, base: nat)
    requires
        base == 10 || base == 16,
        n < 0x1_0000_0000_0000_0000,
    ensures
        digits(n, base).len() <= 20,
{
    reveal_with_fuel(pow_nat, 21);
    assert(pow_nat(10, 20) == 100_000_000_000_000_000_000);
    assert(pow_nat(16, 20) == 0x1_0000_0000_0000_0000_0000);
    lemma_digits_len(n, base, 0x1_0000_0000_0000_0000, 20);
}

/// Below `bound`, which needs `k` digits at most, a number has at most `k`
/// digits.
proof fn lemma_digits_len(n: nat, base: nat, bound: nat, k: nat)
    requires
        base == 10 || base == 16,
        n < bound,
        bound <= pow_nat(base, k),
        k >= 1,
    ensures
        digits(n, base).len() <= k,
    decreases n,
{
    if n >= base {
        let b1 = pow_nat(base, (k - 1) as nat);
        assert(pow_nat(base, k) == base * b1);
        assert(k - 1 >= 1) by {
            if k == 1 {
                assert(b1 == 1);
            }
        }
        assert(n / base < b1) by (nonlinear_arith)
            requires
                n < base * b1,
                base > 0,
        ;
        lemma_digits_len(n / base, base, b1, (k - 1) as nat);
    }
}

/// `base` to the power `k`.
pub open spec fn pow_nat(base: nat, k: nat) -> nat
    decreases k,
{
    if k == 0 {
        1
    } else {
        base * pow_nat(base, (k - 1) as nat)
    }
}

/// Appends the digits of `n` in base `base` to `s`.
pub fn push_digits(s: &mut String, n: u64, base: u64)
    requires
        base == 10 || base == 16,
    ensures
        final(s)@ == old(s)@ + digits(n as nat, base as nat),
    decreases n,
{
    if n >= base {
        push_digits(s, n / base, base);
    }
    push_char(s, digit_to_char(n % base));
}

/// Appends `count` copies of `c` to `s`.
pub fn push_repeat(s: &mut String, c: char, count: usize)
    ensures
        final(s)@ == old(s)@ + repeat(c, count as nat),
{
    let ghost s0 = s@;
    let mut i: usize = 0;
    while i < count
        invariant
            i <= count,
            s@ == s0 + repeat(c, i as nat),
        decreases count - i,
    {
        push_char(s, c);
        i = i + 1;
        assert(s@ =~= s0 + repeat(c, i as nat));
    }
}

/// Appends the digits of `n` in base `base`, padded on the left with `fill`
/// to `width`, to `s`.
pub fn push_padded(s: &mut String, n: u64, base: u64, width: usize, fill: char)
    requires
        base == 10 || base == 16,
    ensures
        final(s)@ == old(s)@ + pad_left(digits(n as nat, base as nat), width as nat, fill),
{
    let ghost s0 = s@;
    let count = digit_count(n, base);
    if count < width {
        push_repeat(s, fill, width - count);
    }
    push_digits(s, n, base);
    assert(s@ =~= s0 + pad_left(digits(n as nat, base as nat), width as nat, fill));
}

/// Appends the characters of `t` to `s`.
pub fn push_str(s: &mut String, t: &str)
    ensures
        final(s)@ == old(s)@ + t@,
{
    let ghost s0 = s@;
    let n = vstd::string::StrSliceExecFns::unicode_len(t);
    let mut i: usize = 0;
    while i < n
        invariant
            i <= n,
            n == t@.len(),
            s@ == s0 + t@.take(i as int),
        decreases n - i,
    {
        let c = vstd::string::StrSliceExecFns::get_char(t, i);
        push_char(s, c);
        i = i + 1;
        assert(s@ =~= s0 + t@.take(i as int));
    }
    assert(t@.take(n as int) =~= t@);
}

} // verus!
