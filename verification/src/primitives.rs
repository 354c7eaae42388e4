//! Ethereum primitive values: 20-byte addresses and 256-bit unsigned
//! integers, held as plain machine words. The arithmetic and text
//! conversions that alloy provides are reached through small wrappers whose
//! contracts state what alloy's source computes.

use vstd::prelude::*;

verus! {

/// 2^64.
pub open spec fn word() -> nat {
    0x1_0000_0000_0000_0000nat
}

/// 2^256: the modulus of `U256` arithmetic.
pub open spec fn u256_modulus() -> nat {
    0x1_0000_0000_0000_0000_0000_0000_0000_0000_0000_0000_0000_0000_0000_0000_0000_0000nat
}

/// 2^160: one past the largest address value.
pub open spec fn address_modulus() -> nat {
    0x1_0000_0000_0000_0000_0000_0000_0000_0000_0000_0000nat
}

/// An Ethereum address. `hi` holds the first 4 bytes, `mid` the next 8 and
/// `lo` the last 8 (big-endian), so the address read as a number is
/// `hi * 2^128 + mid * 2^64 + lo`.
#[derive(Clone, Copy, Debug, PartialEq, Eq, Structural, Hash, PartialOrd, Ord)]
pub struct Address {
    pub hi: u32,
    pub mid: u64,
    pub lo: u64,
}

/// A 256-bit unsigned integer as four little-endian 64-bit limbs.
#[derive(Clone, Copy, Debug, PartialEq, Eq, Structural, Hash)]
pub struct U256 {
    pub w0: u64,
    pub w1: u64,
    pub w2: u64,
    pub w3: u64,
}

impl View for Address {
    type V = nat;

    /// The address read as a big-endian number.
    open spec fn view(&self) -> nat {
        self.hi as nat * word() * word() + self.mid as nat * word() + self.lo as nat
    }
}

impl View for U256 {
    type V = nat;

    open spec fn view(&self) -> nat {
        ((self.w3 as nat * word() + self.w2 as nat) * word() + self.w1 as nat) * word()
            + self.w0 as nat
    }
}

/// The address whose number is `v` (for `v < 2^160`).
pub open spec fn address_of_value(v: nat) -> Address {
    Address {
        hi: (v / (word() * word())) as u32,
        mid: ((v / word()) % word()) as u64,
        lo: (v % word()) as u64,
    }
}

/// The `U256` whose value is `v` (for `v < 2^256`).
pub open spec fn u256_of_value(v: nat) -> U256 {
    U256 {
        w0: (v % word()) as u64,
        w1: ((v / word()) % word()) as u64,
        w2: ((v / (word() * word())) % word()) as u64,
        w3: (v / (word() * word() * word())) as u64,
    }
}

pub proof fn lemma_address_bounds(a: Address)
    ensures
        a@ < address_modulus(),
        address_of_value(a@) == a,
{
    let w = word();
    let h = a.hi as nat;
    let m = a.mid as nat;
    let l = a.lo as nat;
    assert(a@ == h * w * w + m * w + l);
    assert(h * w * w + m * w + l < address_modulus()) by (nonlinear_arith)
        requires
            h < 0x1_0000_0000,
            m < w,
            l < w,
            w == word(),
            address_modulus() == 0x1_0000_0000 * w * w,
    ;
    lemma_split_div(h * w + m, l, w);
    lemma_split_div(h, m, w);
    vstd::arithmetic::div_mod::lemma_div_denominator((h * w * w + m * w + l) as int, w as int, w as int);
    assert(h * w * w + m * w + l == (h * w + m) * w + l) by (nonlinear_arith);
}

/// `(q * d + r) / d == q` and `(q * d + r) % d == r` when `r < d`.
pub proof fn lemma_split_div(q: nat, r: nat, d: nat)
    requires
        r < d,
    ensures
        (q * d + r) / d == q,
        (q * d + r) % d == r,
{
    vstd::arithmetic::div_mod::lemma_fundamental_div_mod_converse(
        (q * d + r) as int,
        d as int,
        q as int,
        r as int,
    );
}

pub proof fn lemma_u256_bounds(x: U256)
    ensures
        x@ < u256_modulus(),
{
    let w = word();
    assert(u256_modulus() == w * w * w * w) by (nonlinear_arith)
        requires
            w == word(),
    ;
    assert(((x.w3 as nat * w + x.w2 as nat) * w + x.w1 as nat) * w + (x.w0 as nat) < w * w * w * w)
        by (nonlinear_arith)
        requires
            x.w0 < w,
            x.w1 < w,
            x.w2 < w,
            x.w3 < w,
    ;
}

pub proof fn lemma_u256_of_value(v: nat)
    requires
        v < u256_modulus(),
    ensures
        u256_of_value(v)@ == v,
{
    let w = word();
    let a = v % w;
    let b = (v / w) % w;
    let c = (v / (w * w)) % w;
    let d = v / (w * w * w);
    assert(u256_modulus() == w * w * w * w) by (nonlinear_arith)
        requires
            w == word(),
    ;
    assert(d < w && ((d * w + c) * w + b) * w + a == v) by (nonlinear_arith)
        requires
            w == word(),
            v < w * w * w * w,
            a == v % w,
            b == (v / w) % w,
            c == (v / (w * w)) % w,
            d == v / (w * w * w),
            w > 0,
    ;
}

/// A `U256` is rebuilt from its value.
pub proof fn lemma_u256_of_value_self(a: U256)
    ensures
        u256_of_value(a@) == a,
{
    let w = word();
    let v = a@;
    let x = (a.w3 as nat * w + a.w2 as nat) * w + a.w1 as nat;
    let y = a.w3 as nat * w + a.w2 as nat;
    lemma_split_div(x, a.w0 as nat, w);
    lemma_split_div(y, a.w1 as nat, w);
    lemma_split_div(a.w3 as nat, a.w2 as nat, w);
    vstd::arithmetic::div_mod::lemma_div_denominator(v as int, w as int, w as int);
    vstd::arithmetic::div_mod::lemma_div_denominator((v / w) as int, w as int, w as int);
    vstd::arithmetic::div_mod::lemma_div_denominator(v as int, (w * w) as int, w as int);
    assert(a.w3 as nat / w == 0 && a.w3 as nat % w == a.w3) by {
        lemma_split_div(0, a.w3 as nat, w);
    }
}

/// The address `0x000…000`.
pub fn zero_address() -> (a: Address)
    ensures
        a@ == 0,
{
    Address { hi: 0, mid: 0, lo: 0 }
}

impl U256 {
    pub fn zero() -> (r: U256)
        ensures
            r@ == 0,
    {
        U256 { w0: 0, w1: 0, w2: 0, w3: 0 }
    }

    pub fn from_u64(v: u64) -> (r: U256)
        ensures
            r@ == v,
    {
        U256 { w0: v, w1: 0, w2: 0, w3: 0 }
    }

    pub fn is_zero(&self) -> (b: bool)
        ensures
            b == (self@ == 0),
    {
        proof {
            let w = word();
            assert(self@ == 0 <==> (self.w0 == 0 && self.w1 == 0 && self.w2 == 0 && self.w3 == 0))
                by (nonlinear_arith)
                requires
                    w == word(),
                    self@ == ((self.w3 as nat * w + self.w2 as nat) * w + self.w1 as nat) * w
                        + self.w0 as nat,
            ;
        }
        self.w0 == 0 && self.w1 == 0 && self.w2 == 0 && self.w3 == 0
    }

    /// The value as a `u64`, if it fits.
    pub fn to_u64(&self) -> (r: Option<u64>)
        ensures
            self@ <= u64::MAX ==> r == Some(self@ as u64),
            self@ > u64::MAX ==> r is None,
    {
        proof {
            let w = word();
            assert(self@ <= u64::MAX <==> (self.w1 == 0 && self.w2 == 0 && self.w3 == 0)) by (nonlinear_arith)
                requires
                    w == word(),
                    w == u64::MAX + 1,
                    self@ == ((self.w3 as nat * w + self.w2 as nat) * w + self.w1 as nat) * w
                        + self.w0 as nat,
            ;
            assert((self.w1 == 0 && self.w2 == 0 && self.w3 == 0) ==> self@ == self.w0);
        }
        if self.w1 == 0 && self.w2 == 0 && self.w3 == 0 {
            Some(self.w0)
        } else {
            None
        }
    }

    /// `self >= other` as numbers.
    pub fn ge(&self, other: &U256) -> (b: bool)
        ensures
            b == (self@ >= other@),
    {
        proof {
            lemma_u256_order(*self, *other);
        }
        if self.w3 != other.w3 {
            self.w3 > other.w3
        } else if self.w2 != other.w2 {
            self.w2 > other.w2
        } else if self.w1 != other.w1 {
            self.w1 > other.w1
        } else {
            self.w0 >= other.w0
        }
    }
}

proof fn lemma_u256_order(a: U256, b: U256)
    ensures
        a.w3 != b.w3 ==> (a@ >= b@ <==> a.w3 > b.w3),
        a.w3 == b.w3 && a.w2 != b.w2 ==> (a@ >= b@ <==> a.w2 > b.w2),
        a.w3 == b.w3 && a.w2 == b.w2 && a.w1 != b.w1 ==> (a@ >= b@ <==> a.w1 > b.w1),
        a.w3 == b.w3 && a.w2 == b.w2 && a.w1 == b.w1 ==> (a@ >= b@ <==> a.w0 >= b.w0),
{
    let w = word();
    let lo_a = (a.w1 as nat) * w + a.w0 as nat;
    let lo_b = (b.w1 as nat) * w + b.w0 as nat;
    assert(lo_a < w * w && lo_b < w * w) by (nonlinear_arith)
        requires
            lo_a == (a.w1 as nat) * w + a.w0 as nat,
            lo_b == (b.w1 as nat) * w + b.w0 as nat,
            a.w0 < w,
            a.w1 < w,
            b.w0 < w,
            b.w1 < w,
    ;
    let mid_a = (a.w2 as nat) * w * w + lo_a;
    let mid_b = (b.w2 as nat) * w * w + lo_b;
    assert(mid_a < w * w * w && mid_b < w * w * w) by (nonlinear_arith)
        requires
            mid_a == (a.w2 as nat) * w * w + lo_a,
            mid_b == (b.w2 as nat) * w * w + lo_b,
            lo_a < w * w,
            lo_b < w * w,
            a.w2 < w,
            b.w2 < w,
    ;
    assert(a@ == (a.w3 as nat) * w * w * w + mid_a) by (nonlinear_arith)
        requires
            w == word(),
            mid_a == (a.w2 as nat) * w * w + lo_a,
            lo_a == (a.w1 as nat) * w + a.w0 as nat,
            a@ == ((a.w3 as nat * w + a.w2 as nat) * w + a.w1 as nat) * w + a.w0 as nat,
    ;
    assert(b@ == (b.w3 as nat) * w * w * w + mid_b) by (nonlinear_arith)
        requires
            w == word(),
            mid_b == (b.w2 as nat) * w * w + lo_b,
            lo_b == (b.w1 as nat) * w + b.w0 as nat,
            b@ == ((b.w3 as nat * w + b.w2 as nat) * w + b.w1 as nat) * w + b.w0 as nat,
    ;
    lemma_lex(a.w3 as nat, mid_a, b.w3 as nat, mid_b, w * w * w);
    lemma_lex(a.w2 as nat, lo_a, b.w2 as nat, lo_b, w * w);
    lemma_lex(a.w1 as nat, a.w0 as nat, b.w1 as nat, b.w0 as nat, w);
}

/// Comparing `x * base + lx` against `y * base + ly`, with both low parts
/// below `base`, is decided by the high parts when they differ.
proof fn lemma_lex(x: nat, lx: nat, y: nat, ly: nat, base: nat)
    requires
        lx < base,
        ly < base,
    ensures
        x != y ==> (x * base + lx >= y * base + ly <==> x > y),
        x == y ==> (x * base + lx >= y * base + ly <==> lx >= ly),
{
    if x > y {
        assert(x * base + lx >= y * base + ly) by (nonlinear_arith)
            requires
                x > y,
                ly < base,
        ;
    } else if x < y {
        assert(x * base + lx < y * base + ly) by (nonlinear_arith)
            requires
                x < y,
                lx < base,
        ;
    }
}

// ---------------------------------------------------------------------------
// Text forms
// ---------------------------------------------------------------------------

/// The character of a decimal digit `d < 10`.
pub open spec fn digit_char(d: nat) -> char {
    (48 + d) as char
}

/// Decimal digits of `n` without leading zeros (`"0"` for zero).
pub open spec fn dec_digits(n: nat) -> Seq<char>
    decreases n,
{
    if n < 10 {
        seq![digit_char(n)]
    } else {
        dec_digits(n / 10).push(digit_char(n % 10))
    }
}

/// The lowercase character of a hex digit `d < 16`.
pub open spec fn hex_char_lower(d: nat) -> char {
    if d < 10 {
        (48 + d) as char
    } else {
        (87 + d) as char
    }
}

/// The `len` lowest hex digits of `v`, most significant first, zero padded.
pub open spec fn hex_lower(v: nat, len: nat) -> Seq<char>
    decreases len,
{
    if len == 0 {
        seq![]
    } else {
        hex_lower(v / 16, (len - 1) as nat).push(hex_char_lower(v % 16))
    }
}

pub proof fn lemma_hex_len(v: nat, len: nat)
    ensures
        hex_lower(v, len).len() == len,
    decreases len,
{
    if len > 0 {
        lemma_hex_len(v / 16, (len - 1) as nat);
    }
}

pub open spec fn is_hex_char(c: char) -> bool {
    ('0' <= c && c <= '9') || ('a' <= c && c <= 'f') || ('A' <= c && c <= 'F')
}

pub open spec fn hex_char_value(c: char) -> nat {
    if '0' <= c && c <= '9' {
        (c as nat - 48) as nat
    } else if 'a' <= c && c <= 'f' {
        (c as nat - 87) as nat
    } else {
        (c as nat - 55) as nat
    }
}

/// The number written by the hex digits `s`, most significant first.
pub open spec fn hex_value(s: Seq<char>) -> nat
    decreases s.len(),
{
    if s.len() == 0 {
        0
    } else {
        hex_value(s.drop_last()) * 16 + hex_char_value(s.last())
    }
}

/// `s` without a leading `0x` or `0X`.
pub open spec fn strip_hex_prefix(s: Seq<char>) -> Seq<char> {
    if s.len() >= 2 && s[0] == '0' && (s[1] == 'x' || s[1] == 'X') {
        s.skip(2)
    } else {
        s
    }
}

/// What parsing `s` as an address gives: after an optional `0x`/`0X`
/// prefix, exactly 40 hex digits of either case.
pub open spec fn address_parse_spec(s: Seq<char>) -> Option<Address> {
    let body = strip_hex_prefix(s);
    if body.len() == 40 && (forall|i: int| 0 <= i < body.len() ==> #[trigger] is_hex_char(body[i])) {
        Some(address_of_value(hex_value(body)))
    } else {
        None
    }
}

/// The `0x`-prefixed lowercase hex form of an address (42 characters).
pub open spec fn address_hex(a: Address) -> Seq<char> {
    seq!['0', 'x'] + hex_lower(a@, 40)
}

/// Parses an address with alloy's `Address: FromStr`.
///
/// alloy decodes with `const_hex::decode_to_array`: an odd length is
/// refused, a leading `0x`/`0X` is stripped, and the rest must be exactly 40
/// hex digits of either case (no checksum check). The contract states that.
#[verifier::external_body]
pub(crate) fn parse_address(s: &str) -> (r: Option<Address>)
    ensures
        r == address_parse_spec(s@),
{
    match s.parse::<alloy::primitives::Address>() {
        Ok(a) => {
            let limbs = <alloy::primitives::U160 as From<alloy::primitives::Address>>::from(a).into_limbs();
            Some(Address { hi: limbs[2] as u32, mid: limbs[1], lo: limbs[0] })
        },
        Err(_) => None,
    }
}

/// A character's digit value in `radix` (case-insensitive `0-9`, `a-z`),
/// if it is a digit of that radix.
pub open spec fn radix_digit(c: char, radix: nat) -> Option<nat> {
    let d: int = if '0' <= c && c <= '9' {
        c as int - '0' as int
    } else if 'a' <= c && c <= 'z' {
        c as int - 'a' as int + 10
    } else if 'A' <= c && c <= 'Z' {
        c as int - 'A' as int + 10
    } else {
        -1
    };
    if 0 <= d < radix {
        Some(d as nat)
    } else {
        None
    }
}

/// The value of the digits of `s` in `radix`, `_` skipped (no digits at all
/// is 0); `None` if some other character is no digit of the radix.
pub open spec fn radix_value(s: Seq<char>, radix: nat) -> Option<nat>
    decreases s.len(),
{
    if s.len() == 0 {
        Some(0)
    } else {
        match radix_value(s.drop_last(), radix) {
            None => None,
            Some(v) => if s.last() == '_' {
                Some(v)
            } else {
                match radix_digit(s.last(), radix) {
                    Some(d) => Some(v * radix + d),
                    None => None,
                }
            },
        }
    }
}

/// The digits and radix a number text is read in: after `0x`/`0X` base 16,
/// after `0o`/`0O` base 8, after `0b`/`0B` base 2, else all of it in base 10.
pub open spec fn radix_and_digits(s: Seq<char>) -> (nat, Seq<char>) {
    if s.len() >= 2 && s[0] == '0' && (s[1] == 'x' || s[1] == 'X') {
        (16, s.skip(2))
    } else if s.len() >= 2 && s[0] == '0' && (s[1] == 'o' || s[1] == 'O') {
        (8, s.skip(2))
    } else if s.len() >= 2 && s[0] == '0' && (s[1] == 'b' || s[1] == 'B') {
        (2, s.skip(2))
    } else {
        (10, s)
    }
}

/// A number text read as a `U256`: `None` if it has a character that is no
/// digit of its radix (nor `_`), or if its value is 2^256 or more.
pub open spec fn u256_parse_spec(s: Seq<char>) -> Option<U256> {
    let (radix, digits) = radix_and_digits(s);
    match radix_value(digits, radix) {
        Some(v) => if v < u256_modulus() {
            Some(u256_of_value(v))
        } else {
            None
        },
        None => None,
    }
}

/// Parses a number text with ruint's `U256: FromStr` (through alloy).
///
/// ruint reads an optional `0x`/`0X`, `0o`/`0O` or `0b`/`0B` prefix for
/// bases 16, 8 and 2, else base 10; each byte must be a digit of the base
/// (`0-9`, `a-z`, `A-Z` by value) or `_`, which is skipped; a value of
/// 2^256 or more is refused. A character outside ASCII has no digit byte,
/// so it is refused too. The contract states that.
#[verifier::external_body]
pub(crate) fn parse_u256(s: &str) -> (r: Option<U256>)
    ensures
        r == u256_parse_spec(s@),
{
    match s.parse::<alloy::primitives::U256>() {
        Ok(v) => {
            let l = v.into_limbs();
            Some(U256 { w0: l[0], w1: l[1], w2: l[2], w3: l[3] })
        },
        Err(_) => None,
    }
}

/// Why a text is no address.
#[derive(Debug, Clone, Copy, PartialEq, Eq)]
pub struct AddressParseError;

/// `"0x…".parse::<Address>()`: the 40 hex digits of an address, with or
/// without a `0x`/`0X` prefix, in either case.
impl std::str::FromStr for Address {
    type Err = AddressParseError;

    fn from_str(s: &str) -> (r: Result<Address, AddressParseError>)
        ensures
            r matches Ok(a) ==> address_parse_spec(s@) == Some(a),
            r is Err ==> address_parse_spec(s@) is None,
    {
        match parse_address(s) {
            Some(a) => Ok(a),
            None => Err(AddressParseError),
        }
    }
}

/// Formats an address with alloy's `LowerHex` and the alternate flag
/// (`{:#x}`): `0x` followed by the 40 lowercase hex digits of its bytes.
#[verifier::external_body]
pub(crate) fn address_to_hex(a: Address) -> (s: String)
    ensures
        s@ == address_hex(a),
{
    let v = alloy::primitives::U160::from_limbs([a.lo, a.mid, a.hi as u64]);
    format!("{:#x}", alloy::primitives::Address::from(v))
}

/// Decimal text of a `U256` via ruint's `Display`: the digits of the value
/// without leading zeros, `"0"` for zero.
#[verifier::external_body]
pub(crate) fn u256_to_decimal(x: U256) -> (s: String)
    ensures
        s@ == dec_digits(x@),
{
    alloy::primitives::U256::from_limbs([x.w0, x.w1, x.w2, x.w3]).to_string()
}

/// ruint's `+` on `U256`, which is `wrapping_add`: the sum modulo 2^256.
#[verifier::external_body]
pub(crate) fn u256_add(a: U256, b: U256) -> (r: U256)
    ensures
        r@ == (a@ + b@) % u256_modulus(),
{
    let l = (alloy::primitives::U256::from_limbs([a.w0, a.w1, a.w2, a.w3])
        + alloy::primitives::U256::from_limbs([b.w0, b.w1, b.w2, b.w3])).into_limbs();
    U256 { w0: l[0], w1: l[1], w2: l[2], w3: l[3] }
}

/// ruint's `*` on `U256`, which is `wrapping_mul`: the product modulo 2^256.
#[verifier::external_body]
pub(crate) fn u256_mul(a: U256, b: U256) -> (r: U256)
    ensures
        r@ == (a@ * b@) % u256_modulus(),
{
    let l = (alloy::primitives::U256::from_limbs([a.w0, a.w1, a.w2, a.w3])
        * alloy::primitives::U256::from_limbs([b.w0, b.w1, b.w2, b.w3])).into_limbs();
    U256 { w0: l[0], w1: l[1], w2: l[2], w3: l[3] }
}

/// ruint's `U256::pow`, which is `wrapping_pow`: the power modulo 2^256.
#[verifier::external_body]
pub(crate) fn u256_pow(base: U256, exp: U256) -> (r: U256)
    ensures
        r@ == vstd::arithmetic::power::pow(base@ as int, exp@) as nat % u256_modulus(),
{
    let l = alloy::primitives::U256::from_limbs([base.w0, base.w1, base.w2, base.w3]).pow(
        alloy::primitives::U256::from_limbs([exp.w0, exp.w1, exp.w2, exp.w3]),
    ).into_limbs();
    U256 { w0: l[0], w1: l[1], w2: l[2], w3: l[3] }
}


proof fn lemma_hex_digits(v: nat, len: nat)
    ensures
        forall|i: int| 0 <= i < hex_lower(v, len).len() ==> #[trigger] is_hex_char(hex_lower(v, len)[i]),
        hex_value(hex_lower(v, len)) == v % vstd::arithmetic::power::pow(16, len) as nat,
    decreases len,
{
    lemma_hex_len(v, len);
    vstd::arithmetic::power::lemma_pow_positive(16, len);
    if len == 0 {
        assert(vstd::arithmetic::power::pow(16, 0) == 1) by {
            vstd::arithmetic::power::lemma_pow0(16);
        }
    } else {
        let p = hex_lower(v / 16, (len - 1) as nat);
        let h = hex_lower(v, len);
        let d = v % 16;
        lemma_hex_digits(v / 16, (len - 1) as nat);
        lemma_hex_len(v / 16, (len - 1) as nat);
        assert(h == p.push(hex_char_lower(d)));
        assert(h.drop_last() =~= p);
        assert(hex_char_value(hex_char_lower(d)) == d) by {
            if d < 10 {
                assert((hex_char_lower(d) as nat) == 48 + d);
            } else {
                assert((hex_char_lower(d) as nat) == 87 + d);
            }
        }
        assert forall|i: int| 0 <= i < h.len() implies #[trigger] is_hex_char(h[i]) by {
            if i < p.len() {
                assert(h[i] == p[i]);
            } else {
                assert(h[i] == hex_char_lower(d));
                if d < 10 {
                    assert((hex_char_lower(d) as nat) == 48 + d);
                } else {
                    assert((hex_char_lower(d) as nat) == 87 + d);
                }
            }
        }
        let m = vstd::arithmetic::power::pow(16, (len - 1) as nat);
        vstd::arithmetic::power::lemma_pow_positive(16, (len - 1) as nat);
        assert(vstd::arithmetic::power::pow(16, len) == 16 * m) by {
            vstd::arithmetic::power::lemma_pow_adds(16, 1, (len - 1) as nat);
            vstd::arithmetic::power::lemma_pow1(16);
        }
        vstd::arithmetic::div_mod::lemma_breakdown(v as int, 16, m);
        assert(hex_value(h) == hex_value(p) * 16 + d);
    }
}

/// The hex form of an address parses back to the same address.
pub proof fn law_address_hex_parses(a: Address)
    ensures
        address_parse_spec(address_hex(a)) == Some(a),
{
    let h = hex_lower(a@, 40);
    let s = address_hex(a);
    lemma_hex_len(a@, 40);
    assert(s.skip(2) =~= h);
    assert(strip_hex_prefix(s) == h);
    lemma_hex_digits(a@, 40);
    lemma_address_bounds(a);
    assert(vstd::arithmetic::power::pow(16, 40) == address_modulus()) by {
        reveal_with_fuel(vstd::arithmetic::power::pow, 41);
    }
    vstd::arithmetic::div_mod::lemma_small_mod(a@, address_modulus());
}


// ---------------------------------------------------------------------------
// Big-endian bytes
// ---------------------------------------------------------------------------

/// The `n` lowest bytes of `v`, most significant first.
pub open spec fn be_bytes(v: nat, n: nat) -> Seq<u8>
    decreases n,
{
    if n == 0 {
        seq![]
    } else {
        be_bytes(v / 256, (n - 1) as nat).push((v % 256) as u8)
    }
}

/// The number the bytes spell, most significant first.
pub open spec fn be_value(b: Seq<u8>) -> nat
    decreases b.len(),
{
    if b.len() == 0 {
        0
    } else {
        be_value(b.drop_last()) * 256 + b.last() as nat
    }
}

proof fn lemma_be_bytes(v: nat, n: nat)
    ensures
        be_bytes(v, n).len() == n,
        be_value(be_bytes(v, n)) == v % vstd::arithmetic::power::pow(256, n) as nat,
    decreases n,
{
    vstd::arithmetic::power::lemma_pow_positive(256, n);
    if n == 0 {
        vstd::arithmetic::power::lemma_pow0(256);
    } else {
        lemma_be_bytes(v / 256, (n - 1) as nat);
        let b = be_bytes(v, n);
        assert(b.drop_last() =~= be_bytes(v / 256, (n - 1) as nat));
        let m = vstd::arithmetic::power::pow(256, (n - 1) as nat);
        vstd::arithmetic::power::lemma_pow_positive(256, (n - 1) as nat);
        assert(vstd::arithmetic::power::pow(256, n) == 256 * m) by {
            vstd::arithmetic::power::lemma_pow_adds(256, 1, (n - 1) as nat);
            vstd::arithmetic::power::lemma_pow1(256);
        }
        vstd::arithmetic::div_mod::lemma_breakdown(v as int, 256, m);
    }
}

proof fn lemma_be_value_concat(a: Seq<u8>, b: Seq<u8>)
    ensures
        be_value(a + b) == be_value(a) * vstd::arithmetic::power::pow(256, b.len()) + be_value(b),
    decreases b.len(),
{
    if b.len() == 0 {
        assert(a + b =~= a);
        vstd::arithmetic::power::lemma_pow0(256);
    } else {
        lemma_be_value_concat(a, b.drop_last());
        assert((a + b).drop_last() =~= a + b.drop_last());
        let m = vstd::arithmetic::power::pow(256, (b.len() - 1) as nat);
        assert(vstd::arithmetic::power::pow(256, b.len()) == 256 * m) by {
            vstd::arithmetic::power::lemma_pow_adds(256, 1, (b.len() - 1) as nat);
            vstd::arithmetic::power::lemma_pow1(256);
        }
        assert(be_value(a) * (256 * m) == (be_value(a) * m) * 256) by (nonlinear_arith);
    }
}

/// Appends the `n` lowest bytes of `x`, most significant first.
fn push_be(out: &mut Vec<u8>, x: u64, n: usize)
    requires
        n <= 8,
    ensures
        final(out)@ == old(out)@ + be_bytes(x as nat, n as nat),
    decreases n,
{
    if n > 0 {
        push_be(out, x / 256, n - 1);
        out.push((x % 256) as u8);
        assert(final(out)@ =~= old(out)@ + be_bytes(x as nat, n as nat));
    } else {
        assert(out@ =~= out@ + be_bytes(x as nat, 0));
    }
}

impl Address {
    /// The 20 bytes of the address, most significant first.
    pub fn to_bytes(self) -> (r: Vec<u8>)
        ensures
            r@.len() == 20,
            be_value(r@) == self@,
            r@ == be_bytes(self.hi as nat, 4) + be_bytes(self.mid as nat, 8) + be_bytes(self.lo as nat, 8),
    {
        let mut r: Vec<u8> = Vec::new();
        push_be(&mut r, self.hi as u64, 4);
        push_be(&mut r, self.mid, 8);
        push_be(&mut r, self.lo, 8);
        proof {
            let a = be_bytes(self.hi as nat, 4);
            let b = be_bytes(self.mid as nat, 8);
            let c = be_bytes(self.lo as nat, 8);
            assert(r@ =~= a + b + c);
            lemma_be_bytes(self.hi as nat, 4);
            lemma_be_bytes(self.mid as nat, 8);
            lemma_be_bytes(self.lo as nat, 8);
            lemma_be_value_concat(a + b, c);
            lemma_be_value_concat(a, b);
            assert(vstd::arithmetic::power::pow(256, 4) == 0x1_0000_0000) by {
                reveal_with_fuel(vstd::arithmetic::power::pow, 5);
            }
            assert(vstd::arithmetic::power::pow(256, 8) == word()) by {
                reveal_with_fuel(vstd::arithmetic::power::pow, 9);
            }
            vstd::arithmetic::div_mod::lemma_small_mod(self.hi as nat, 0x1_0000_0000);
            vstd::arithmetic::div_mod::lemma_small_mod(self.mid as nat, word());
            vstd::arithmetic::div_mod::lemma_small_mod(self.lo as nat, word());
            assert((self.hi as nat * word() + self.mid as nat) * word() + self.lo as nat == self@) by (nonlinear_arith);
        }
        r
    }
}

impl U256 {
    /// The 32 bytes of the number, most significant first.
    pub fn to_be_bytes(self) -> (r: Vec<u8>)
        ensures
            r@.len() == 32,
            be_value(r@) == self@,
            r@ == be_bytes(self.w3 as nat, 8) + be_bytes(self.w2 as nat, 8) + be_bytes(self.w1 as nat, 8) + be_bytes(
                self.w0 as nat,
                8,
            ),
    {
        let mut r: Vec<u8> = Vec::new();
        push_be(&mut r, self.w3, 8);
        push_be(&mut r, self.w2, 8);
        push_be(&mut r, self.w1, 8);
        push_be(&mut r, self.w0, 8);
        proof {
            let a = be_bytes(self.w3 as nat, 8);
            let b = be_bytes(self.w2 as nat, 8);
            let c = be_bytes(self.w1 as nat, 8);
            let d = be_bytes(self.w0 as nat, 8);
            assert(r@ =~= a + b + c + d);
            lemma_be_bytes(self.w3 as nat, 8);
            lemma_be_bytes(self.w2 as nat, 8);
            lemma_be_bytes(self.w1 as nat, 8);
            lemma_be_bytes(self.w0 as nat, 8);
            lemma_be_value_concat(a + b + c, d);
            lemma_be_value_concat(a + b, c);
            lemma_be_value_concat(a, b);
            assert(vstd::arithmetic::power::pow(256, 8) == word()) by {
                reveal_with_fuel(vstd::arithmetic::power::pow, 9);
            }
            vstd::arithmetic::div_mod::lemma_small_mod(self.w3 as nat, word());
            vstd::arithmetic::div_mod::lemma_small_mod(self.w2 as nat, word());
            vstd::arithmetic::div_mod::lemma_small_mod(self.w1 as nat, word());
            vstd::arithmetic::div_mod::lemma_small_mod(self.w0 as nat, word());
        }
        r
    }
}

} // verus!
