//! Fixed-point amounts: splitting a raw token amount with `decimals`
//! decimal places into its whole part and its fractional digits, as the
//! decimal text of the amount, zero padded, cut `decimals` digits from the
//! right.

use vstd::prelude::*;

use crate::primitives::{dec_digits, digit_char, u256_to_decimal, U256};
use crate::text::chars_of;

verus! {

/// 10^d.
pub open spec fn pow10(d: nat) -> nat
    decreases d,
{
    if d == 0 {
        1
    } else {
        10 * pow10((d - 1) as nat)
    }
}

/// The `len` lowest decimal digits of `v`, most significant first, zero padded.
pub open spec fn fixed_dec(v: nat, len: nat) -> Seq<char>
    decreases len,
{
    if len == 0 {
        seq![]
    } else {
        fixed_dec(v / 10, (len - 1) as nat).push(digit_char(v % 10))
    }
}

pub open spec fn zeros(k: nat) -> Seq<char> {
    Seq::new(k, |i: int| '0')
}

/// `s` padded on the left with `0` to at least `width` characters.
pub open spec fn pad_zeros(s: Seq<char>, width: nat) -> Seq<char> {
    if s.len() >= width {
        s
    } else {
        zeros((width - s.len()) as nat) + s
    }
}

pub proof fn lemma_pow10_pos(d: nat)
    ensures
        pow10(d) >= 1,
    decreases d,
{
    if d > 0 {
        lemma_pow10_pos((d - 1) as nat);
    }
}

pub proof fn lemma_pow10_mono(a: nat, b: nat)
    requires
        a <= b,
    ensures
        pow10(a) <= pow10(b),
    decreases b,
{
    if a < b {
        lemma_pow10_mono(a, (b - 1) as nat);
        lemma_pow10_pos((b - 1) as nat);
    }
}

pub proof fn lemma_fixed_dec_len(v: nat, len: nat)
    ensures
        fixed_dec(v, len).len() == len,
    decreases len,
{
    if len > 0 {
        lemma_fixed_dec_len(v / 10, (len - 1) as nat);
    }
}

pub proof fn lemma_fixed_dec_zero(len: nat)
    ensures
        fixed_dec(0, len) == zeros(len),
    decreases len,
{
    if len > 0 {
        lemma_fixed_dec_zero((len - 1) as nat);
        assert(fixed_dec(0, len) =~= zeros(len));
    }
}

/// `x / (10 * m) == (x / 10) / m` and `(x % (10 * m)) / 10 == (x / 10) % m`,
/// `(x % (10 * m)) % 10 == x % 10`.
proof fn lemma_div_mod_10(x: nat, m: nat)
    requires
        m > 0,
    ensures
        x / (10 * m) == (x / 10) / m,
        (x % (10 * m)) / 10 == (x / 10) % m,
        (x % (10 * m)) % 10 == x % 10,
{
    vstd::arithmetic::div_mod::lemma_div_denominator(x as int, 10, m as int);
    vstd::arithmetic::div_mod::lemma_mod_breakdown(x as int, 10, m as int);
    vstd::arithmetic::div_mod::lemma_mod_mod(x as int, 10, m as int);
    let r = x % 10;
    let q = (x / 10) % m;
    assert(x % (10 * m) == 10 * q + r);
    crate::primitives::lemma_split_div(q, r, 10);
    assert(q * 10 + r == 10 * q + r);
}

/// Splitting the fixed digits of `v` at `j` digits from the right.
pub proof fn lemma_fixed_dec_split(v: nat, k: nat, j: nat)
    requires
        j <= k,
    ensures
        fixed_dec(v, k) == fixed_dec(v / pow10(j), (k - j) as nat) + fixed_dec(v % pow10(j), j),
    decreases j,
{
    if j == 0 {
        assert(fixed_dec(v, k) =~= fixed_dec(v / 1, k) + Seq::<char>::empty());
    } else {
        lemma_pow10_pos((j - 1) as nat);
        lemma_fixed_dec_split(v / 10, (k - 1) as nat, (j - 1) as nat);
        lemma_div_mod_10(v, pow10((j - 1) as nat));
        let a = fixed_dec((v / 10) / pow10((j - 1) as nat), (k - j) as nat);
        let b = fixed_dec((v / 10) % pow10((j - 1) as nat), (j - 1) as nat);
        assert(fixed_dec(v, k) == (a + b).push(digit_char(v % 10)));
        assert(fixed_dec(v % pow10(j), j) == b.push(digit_char(v % 10)));
        assert((a + b).push(digit_char(v % 10)) =~= a + b.push(digit_char(v % 10)));
    }
}

/// The decimal digits of `n >= 10^d` end with its `d` low digits.
pub proof fn lemma_dec_digits_split(n: nat, d: nat)
    requires
        n >= pow10(d),
    ensures
        dec_digits(n) == dec_digits(n / pow10(d)) + fixed_dec(n % pow10(d), d),
    decreases d,
{
    if d == 0 {
        assert(dec_digits(n) =~= dec_digits(n / 1) + Seq::<char>::empty());
    } else {
        lemma_pow10_pos((d - 1) as nat);
        lemma_div_mod_10(n, pow10((d - 1) as nat));
        assert(n / 10 >= pow10((d - 1) as nat)) by {
            vstd::arithmetic::div_mod::lemma_div_is_ordered((pow10(d)) as int, n as int, 10);
            assert(pow10(d) / 10 == pow10((d - 1) as nat));
        }
        lemma_dec_digits_split(n / 10, (d - 1) as nat);
        let a = dec_digits((n / 10) / pow10((d - 1) as nat));
        let b = fixed_dec((n / 10) % pow10((d - 1) as nat), (d - 1) as nat);
        assert(dec_digits(n) == (a + b).push(digit_char(n % 10)));
        assert(fixed_dec(n % pow10(d), d) == b.push(digit_char(n % 10)));
        assert((a + b).push(digit_char(n % 10)) =~= a + b.push(digit_char(n % 10)));
    }
}

/// The number of decimal digits of `n` is the `L` with `n < 10^L` and
/// (`L == 1` or `10^(L-1) <= n`), and those digits are `fixed_dec(n, L)`.
pub proof fn lemma_dec_digits_len(n: nat)
    ensures
        dec_digits(n).len() >= 1,
        n < pow10(dec_digits(n).len()),
        dec_digits(n).len() == 1 || n >= pow10((dec_digits(n).len() - 1) as nat),
        dec_digits(n) == fixed_dec(n, dec_digits(n).len()),
    decreases n,
{
    if n < 10 {
        assert(fixed_dec(n, 1) == fixed_dec(0, 0).push(digit_char(n)));
        assert(fixed_dec(n, 1) =~= dec_digits(n));
    } else {
        lemma_dec_digits_len(n / 10);
        let l = dec_digits(n / 10).len();
        assert(dec_digits(n).len() == l + 1);
        assert(n < pow10(l + 1));
        if l > 1 {
            assert(n >= pow10(l));
        }
    }
}

/// Zero-padding the digits of `n` to `d + 1` places and cutting off the last
/// `d` gives the digits of `n / 10^d` and the `d` low digits of `n`.
pub proof fn lemma_padded_split(n: nat, d: nat)
    ensures
        pad_zeros(dec_digits(n), d + 1) == dec_digits(n / pow10(d)) + fixed_dec(n % pow10(d), d),
{
    lemma_dec_digits_len(n);
    lemma_pow10_pos(d);
    let s = dec_digits(n);
    let l = s.len();
    if n >= pow10(d) {
        lemma_dec_digits_split(n, d);
        lemma_dec_digits_len(n / pow10(d));
        lemma_fixed_dec_len(n % pow10(d), d);
    } else if d == 0 {
        assert(pad_zeros(s, d + 1) =~= dec_digits(n / pow10(d)) + fixed_dec(n % pow10(d), d));
    } else {
        // n has at most d digits.
        if l > d {
            lemma_pow10_mono(d, (l - 1) as nat);
        }
        assert(l <= d);
        vstd::arithmetic::div_mod::lemma_basic_div(n as int, pow10(d) as int);
        vstd::arithmetic::div_mod::lemma_small_mod(n, pow10(d));
        lemma_fixed_dec_split(n, d, l);
        vstd::arithmetic::div_mod::lemma_basic_div(n as int, pow10(l) as int);
        vstd::arithmetic::div_mod::lemma_small_mod(n, pow10(l));
        lemma_fixed_dec_zero((d - l) as nat);
        assert(dec_digits(0) =~= seq!['0']);
        assert(pad_zeros(s, d + 1) =~= seq!['0'] + (zeros((d - l) as nat) + s));
    }
}

/// The whole and fractional digits of `amount` with `decimals` decimal
/// places: the digits of `amount / 10^decimals` and the `decimals` low
/// digits of `amount`.
pub fn split_units(amount: U256, decimals: u32) -> (r: (Vec<char>, Vec<char>))
    requires
        decimals < usize::MAX,
    ensures
        r.0@ == dec_digits(amount@ / pow10(decimals as nat)),
        r.1@ == fixed_dec(amount@ % pow10(decimals as nat), decimals as nat),
{
    let raw = chars_of(u256_to_decimal(amount).as_str());
    let need: usize = decimals as usize + 1;
    let mut padded: Vec<char> = Vec::new();
    if raw.len() < need {
        let k = need - raw.len();
        let mut i: usize = 0;
        while i < k
            invariant
                i <= k,
                padded@ == zeros(i as nat),
            decreases k - i,
        {
            padded.push('0');
            i = i + 1;
            assert(padded@ =~= zeros(i as nat));
        }
    }
    let ghost front = padded@;
    let mut j: usize = 0;
    while j < raw.len()
        invariant
            j <= raw@.len(),
            padded@ == front + raw@.take(j as int),
        decreases raw@.len() - j,
    {
        padded.push(raw[j]);
        j = j + 1;
        assert(padded@ =~= front + raw@.take(j as int));
    }
    assert(raw@.take(raw@.len() as int) =~= raw@);
    assert(padded@ =~= pad_zeros(raw@, need as nat));
    proof {
        lemma_padded_split(amount@, decimals as nat);
        lemma_fixed_dec_len(amount@ % pow10(decimals as nat), decimals as nat);
    }
    let len = padded.len();
    let cut = len - decimals as usize;
    let mut int_part: Vec<char> = Vec::new();
    let mut k: usize = 0;
    while k < cut
        invariant
            k <= cut <= len == padded@.len(),
            int_part@ == padded@.take(k as int),
        decreases cut - k,
    {
        int_part.push(padded[k]);
        k = k + 1;
        assert(int_part@ =~= padded@.take(k as int));
    }
    let mut frac: Vec<char> = Vec::new();
    let mut m: usize = cut;
    while m < len
        invariant
            cut <= m <= len == padded@.len(),
            frac@ == padded@.subrange(cut as int, m as int),
        decreases len - m,
    {
        frac.push(padded[m]);
        m = m + 1;
        assert(frac@ =~= padded@.subrange(cut as int, m as int));
    }
    proof {
        let a = dec_digits(amount@ / pow10(decimals as nat));
        let b = fixed_dec(amount@ % pow10(decimals as nat), decimals as nat);
        assert(padded@ == a + b);
        assert(int_part@ =~= a);
        assert(frac@ =~= b);
    }
    (int_part, frac)
}

} // verus!
