//! Text for the history view: amounts, timestamps, shortened hashes and
//! addresses, one line per decoded action.

use vstd::prelude::*;
use vstd::string::StringSliceAdditionalSpecFns;
use vstd::utf8::{decode_utf8, encode_utf8, is_char_boundary};

use crate::chain::{chain_from_id_spec, chain_name_spec, Chain};
use crate::decode::{
    kind_label_spec, Action, ActionView, DecodedTx, DecodedView, Direction, actions_view,
};
use crate::primitives::{address_hex, address_to_hex, dec_digits, Address, U256};
use crate::text::{chars_of, push_chars, push_decimal, push_str, push_text, string_of};
use crate::units::{fixed_dec, pow10, split_units};

verus! {

/// `s` without its trailing `0` characters.
pub open spec fn trim_zeros_end(s: Seq<char>) -> Seq<char>
    decreases s.len(),
{
    if s.len() > 0 && s.last() == '0' {
        trim_zeros_end(s.drop_last())
    } else {
        s
    }
}

/// An amount with `decimals` decimal places, shown with at most `max_frac`
/// fractional digits (truncated, not rounded) and without trailing zeros or
/// a trailing point.
pub open spec fn decimal_text(n: nat, decimals: nat, max_frac: nat) -> Seq<char> {
    if decimals == 0 {
        dec_digits(n)
    } else {
        let whole = dec_digits(n / pow10(decimals));
        let frac = trim_zeros_end(fixed_dec(n % pow10(decimals), decimals).take(max_frac as int));
        if frac.len() == 0 {
            whole
        } else {
            whole + seq!['.'] + frac
        }
    }
}

proof fn lemma_trim_zeros_take(s: Seq<char>, e: int)
    requires
        0 <= e <= s.len(),
        forall|k: int| e <= k < s.len() ==> #[trigger] s[k] == '0',
    ensures
        trim_zeros_end(s) == trim_zeros_end(s.take(e)),
    decreases s.len() - e,
{
    if e < s.len() {
        assert(s.drop_last().take(e) =~= s.take(e));
        assert forall|k: int| e <= k < s.len() - 1 implies #[trigger] s.drop_last()[k] == '0' by {
            assert(s.drop_last()[k] == s[k]);
        }
        lemma_trim_zeros_take(s.drop_last(), e);
    } else {
        assert(s.take(e) =~= s);
    }
}

/// The characters of [`decimal_text`].
pub fn decimal_chars(amount: U256, decimals: u32, max_frac: u32) -> (r: Vec<char>)
    requires
        max_frac <= decimals,
        decimals < usize::MAX,
    ensures
        r@ == decimal_text(amount@, decimals as nat, max_frac as nat),
{
    if decimals == 0 {
        return chars_of(crate::primitives::u256_to_decimal(amount).as_str());
    }
    let (whole, frac_full) = split_units(amount, decimals);
    proof {
        crate::units::lemma_fixed_dec_len(amount@ % pow10(decimals as nat), decimals as nat);
    }
    let ghost keep = frac_full@.take(max_frac as int);
    assert(keep.take(max_frac as int) =~= keep);
    let mut e: usize = max_frac as usize;
    while e > 0 && frac_full[e - 1] == '0'
        invariant
            e <= max_frac <= frac_full@.len(),
            keep == frac_full@.take(max_frac as int),
            trim_zeros_end(keep) == trim_zeros_end(keep.take(e as int)),
        decreases e,
    {
        proof {
            let t = keep.take(e as int);
            assert(t.last() == '0');
            assert(t.drop_last() =~= keep.take(e - 1));
        }
        e = e - 1;
    }
    proof {
        let t = keep.take(e as int);
        assert(t.len() == 0 || t.last() != '0');
        assert(trim_zeros_end(t) == t);
    }
    let mut out = whole;
    if e > 0 {
        out.push('.');
        let mut i: usize = 0;
        let ghost base = out@;
        while i < e
            invariant
                i <= e <= frac_full@.len(),
                out@ == base + frac_full@.take(i as int),
            decreases e - i,
        {
            out.push(frac_full[i]);
            i = i + 1;
            assert(out@ =~= base + frac_full@.take(i as int));
        }
        assert(frac_full@.take(e as int) =~= keep.take(e as int));
    }
    out
}

/// The text of [`decimal_chars`].
fn format_with_decimals(amount: U256, decimals: u32, max_frac: u32) -> (r: String)
    requires
        max_frac <= decimals,
        decimals < usize::MAX,
    ensures
        r@ == decimal_text(amount@, decimals as nat, max_frac as nat),
{
    let v = decimal_chars(amount, decimals, max_frac);
    string_of(&v)
}

/// Wei shown as ETH with up to six decimals.
pub fn format_eth_amount(wei: U256) -> (r: String)
    ensures
        r@ == decimal_text(wei@, 18, 6),
{
    format_with_decimals(wei, 18, 6)
}

/// A token amount with up to six decimals (fewer if the token has fewer).
pub fn format_token_amount(amount: U256, decimals: u32) -> (r: String)
    requires
        decimals < usize::MAX,
    ensures
        r@ == decimal_text(amount@, decimals as nat, if decimals < 6 { decimals as nat } else { 6 }),
{
    let max_frac = if decimals < 6 {
        decimals
    } else {
        6
    };
    format_with_decimals(amount, decimals, max_frac)
}

// ---------------------------------------------------------------------------
// Short forms
// ---------------------------------------------------------------------------

pub open spec fn ellipsis() -> char {
    '\u{2026}'
}

/// The first six and last four characters joined by `…`.
pub open spec fn shorten(s: Seq<char>) -> Seq<char> {
    s.take(6) + seq![ellipsis()] + s.skip(s.len() - 4)
}

/// Whether a hash can be cut where [`short_hash`] cuts it: 12 bytes or
/// fewer, or else byte offsets 6 and 4-from-the-end fall on character
/// boundaries (always so for hex).
pub open spec fn hash_cuttable(s: Seq<char>) -> bool {
    let b = encode_utf8(s);
    b.len() > 12 ==> is_char_boundary(b, 6) && is_char_boundary(b, b.len() - 4)
}

/// A hash of at most 12 bytes as is, a longer one as its first 6 bytes,
/// `…`, and its last 4 bytes.
pub open spec fn short_hash_spec(s: Seq<char>) -> Seq<char> {
    let b = encode_utf8(s);
    if b.len() <= 12 {
        s
    } else {
        decode_utf8(b.take(6)) + seq![ellipsis()] + decode_utf8(b.skip(b.len() - 4))
    }
}

fn shorten_chars(s: &Vec<char>) -> (r: String)
    requires
        s@.len() > 12,
    ensures
        r@ == shorten(s@),
{
    let n = s.len();
    let mut out: Vec<char> = Vec::new();
    let mut i: usize = 0;
    while i < 6
        invariant
            i <= 6,
            n == s@.len(),
            n > 12,
            out@ == s@.take(i as int),
        decreases 6 - i,
    {
        out.push(s[i]);
        i = i + 1;
        assert(out@ =~= s@.take(i as int));
    }
    out.push('\u{2026}');
    let ghost base = out@;
    let mut j: usize = n - 4;
    while j < n
        invariant
            n - 4 <= j <= n,
            n == s@.len(),
            n > 12,
            out@ == base + s@.subrange(n - 4, j as int),
        decreases n - j,
    {
        out.push(s[j]);
        j = j + 1;
        assert(out@ =~= base + s@.subrange(n - 4, j as int));
    }
    assert(out@ =~= shorten(s@));
    string_of(&out)
}

/// Shortens a transaction hash for display: its first 6 and last 4 bytes
/// around `…`.
pub fn short_hash(hash: &str) -> (r: String)
    requires
        hash_cuttable(hash@),
    ensures
        r@ == short_hash_spec(hash@),
{
    let n = hash.as_bytes().len();
    let ghost b = hash.spec_bytes();
    assert(b == encode_utf8(hash@) && n == b.len());
    if n <= 12 {
        return string_of(&chars_of(hash));
    }
    let (head, _) = hash.split_at(6);
    let (_, tail) = hash.split_at(n - 4);
    proof {
        vstd::utf8::encode_utf8_decode_utf8(head@);
        vstd::utf8::encode_utf8_decode_utf8(tail@);
        assert(b.take(6) =~= b.subrange(0, 6));
        assert(b.skip(b.len() - 4) =~= b.subrange(n - 4, b.len() as int));
    }
    let mut out = chars_of(head);
    out.push('\u{2026}');
    push_chars(&mut out, &chars_of(tail));
    assert(out@ =~= short_hash_spec(hash@));
    string_of(&out)
}

/// An address as `0x` hex, shortened.
pub open spec fn short_addr_spec(a: Address) -> Seq<char> {
    shorten(address_hex(a))
}

pub fn short_addr(addr: Address) -> (r: String)
    ensures
        r@ == short_addr_spec(addr),
{
    let hex = address_to_hex(addr);
    let s = chars_of(hex.as_str());
    proof {
        crate::primitives::lemma_hex_len(addr@, 40);
    }
    shorten_chars(&s)
}

// ---------------------------------------------------------------------------
// Time
// ---------------------------------------------------------------------------

/// Days since 1970-01-01 to a proleptic Gregorian `(year, month, day)`,
/// following the civil-from-days computation exactly (as integers).
pub open spec fn civil_from_days(days: int) -> (int, int, int) {
    let z = days + 719468;
    let era = (if z >= 0 { z } else { z - 146096 }) / 146097;
    let doe = z - era * 146097;
    let yoe = (doe - doe / 1460 + doe / 36524 - doe / 146096) / 365;
    let y = yoe + era * 400;
    let doy = doe - (365 * yoe + yoe / 4 - yoe / 100);
    let mp = (5 * doy + 2) / 153;
    let d = doy - (153 * mp + 2) / 5 + 1;
    let m = if mp < 10 { mp + 3 } else { mp - 9 };
    (if m <= 2 { y + 1 } else { y }, m, d)
}

proof fn lemma_civil_ranges(doe: u32)
    requires
        doe < 146097,
    ensures
        0 <= (doe - doe / 1460 + doe / 36524 - doe / 146096) / 365 <= 399,
        0 <= doe - (365 * ((doe - doe / 1460 + doe / 36524 - doe / 146096) / 365) + ((doe - doe / 1460 + doe / 36524 - doe / 146096) / 365) / 4 - ((doe - doe / 1460 + doe / 36524 - doe / 146096) / 365) / 100) <= 365,
{
    assert(0 <= doe - (365 * ((doe - doe / 1460 + doe / 36524 - doe / 146096) / 365) + ((doe - doe / 1460 + doe / 36524 - doe / 146096) / 365) / 4 - ((doe - doe / 1460 + doe / 36524 - doe / 146096) / 365) / 100) <= 365) by (bit_vector)
        requires
            doe < 146097,
    ;
}

pub open spec fn is_leap_year(y: int) -> bool {
    (y % 4 == 0 && y % 100 != 0) || y % 400 == 0
}

/// The number of days in month `m` (1 to 12) of year `y`.
pub open spec fn days_in_month(y: int, m: int) -> int {
    if m == 2 {
        if is_leap_year(y) {
            29
        } else {
            28
        }
    } else if m == 4 || m == 6 || m == 9 || m == 11 {
        30
    } else {
        31
    }
}

/// Days since 1970-01-01 of a proleptic Gregorian date: the inverse
/// days-from-civil computation.
pub open spec fn days_from_civil(y: int, m: int, d: int) -> int {
    let yy = if m <= 2 { y - 1 } else { y };
    let era = yy / 400;
    let yoe = yy - era * 400;
    let mp = if m > 2 { m - 3 } else { m + 9 };
    let doy = (153 * mp + 2) / 5 + d - 1;
    let doe = yoe * 365 + yoe / 4 - yoe / 100 + doy;
    era * 146097 + doe - 719468
}

proof fn lemma_month_lengths(doy: u32)
    requires
        doy <= 365,
    ensures
        ((5 * doy + 2) / 153 == 1 || (5 * doy + 2) / 153 == 3 || (5 * doy + 2) / 153 == 6 || (5 * doy + 2) / 153
            == 8) ==> doy - (153 * ((5 * doy + 2) / 153) + 2) / 5 + 1 <= 30,
        (5 * doy + 2) / 153 == 11 ==> (doy - (153 * ((5 * doy + 2) / 153) + 2) / 5 + 1 <= 28 || doy == 365),
        (5 * doy + 2) / 153 == 11 ==> doy - (153 * ((5 * doy + 2) / 153) + 2) / 5 + 1 <= 29,
{
    assert(((5 * doy + 2) / 153 == 1 || (5 * doy + 2) / 153 == 3 || (5 * doy + 2) / 153 == 6 || (5 * doy + 2)
        / 153 == 8) ==> doy - (153 * ((5 * doy + 2) / 153) + 2) / 5 + 1 <= 30) by (bit_vector)
        requires
            doy <= 365,
    ;
    assert((5 * doy + 2) / 153 == 11 ==> (doy - (153 * ((5 * doy + 2) / 153) + 2) / 5 + 1 <= 28 || doy == 365))
        by (bit_vector)
        requires
            doy <= 365,
    ;
    assert((5 * doy + 2) / 153 == 11 ==> doy - (153 * ((5 * doy + 2) / 153) + 2) / 5 + 1 <= 29) by (bit_vector)
        requires
            doy <= 365,
    ;
}

/// The 366th day of an era year (a 29 February) falls only in years whose
/// next civil year is a leap year.
proof fn lemma_leap_day(doe: u32)
    requires
        doe < 146097,
    ensures
        doe - (365 * ((doe - doe / 1460 + doe / 36524 - doe / 146096) / 365) + ((doe - doe / 1460 + doe / 36524
            - doe / 146096) / 365) / 4 - ((doe - doe / 1460 + doe / 36524 - doe / 146096) / 365) / 100) == 365
            ==> ((((doe - doe / 1460 + doe / 36524 - doe / 146096) / 365) + 1) % 4 == 0 && (((doe - doe / 1460
            + doe / 36524 - doe / 146096) / 365) + 1) % 100 != 0) || (((doe - doe / 1460 + doe / 36524 - doe
            / 146096) / 365) + 1) % 400 == 0,
{
    assert(doe - (365 * ((doe - doe / 1460 + doe / 36524 - doe / 146096) / 365) + ((doe - doe / 1460 + doe / 36524
        - doe / 146096) / 365) / 4 - ((doe - doe / 1460 + doe / 36524 - doe / 146096) / 365) / 100) == 365
        ==> ((((doe - doe / 1460 + doe / 36524 - doe / 146096) / 365) + 1) % 4 == 0 && (((doe - doe / 1460 + doe
        / 36524 - doe / 146096) / 365) + 1) % 100 != 0) || (((doe - doe / 1460 + doe / 36524 - doe / 146096)
        / 365) + 1) % 400 == 0) by (bit_vector)
        requires
            doe < 146097,
    ;
}

/// Every day count from the epoch on names a valid date (month 1 to 12,
/// day within the month's length), and that date leads back to the day
/// count.
pub proof fn law_civil_date_round_trip(days: int)
    requires
        days >= 0,
    ensures
        ({
            let (y, m, d) = civil_from_days(days);
            1 <= m <= 12 && 1 <= d <= days_in_month(y, m) && days_from_civil(y, m, d) == days
        }),
{
    let z = days + 719468;
    let era = z / 146097;
    let doe = z - era * 146097;
    assert(0 <= doe < 146097 && era >= 0) by (nonlinear_arith)
        requires
            z >= 0,
            era == z / 146097,
            doe == z - era * 146097,
    ;
    let de = doe as u32;
    assert(de as int == doe);
    lemma_civil_ranges(de);
    lemma_leap_day(de);
    let yoe = (doe - doe / 1460 + doe / 36524 - doe / 146096) / 365;
    let doy = doe - (365 * yoe + yoe / 4 - yoe / 100);
    assert(0 <= yoe <= 399 && 0 <= doy <= 365);
    let dy = doy as u32;
    assert(dy as int == doy);
    lemma_month_ranges(dy);
    lemma_month_lengths(dy);
    let mp = (5 * doy + 2) / 153;
    let d = doy - (153 * mp + 2) / 5 + 1;
    let m = if mp < 10 { mp + 3 } else { mp - 9 };
    let y = yoe + era * 400;
    let year = if m <= 2 { y + 1 } else { y };
    assert(civil_from_days(days) == (year, m, d));
    // The day is within its month.
    if m == 2 && d == 29 {
        assert(doy == 365);
        let a = yoe + 1;
        vstd::arithmetic::div_mod::lemma_mod_multiples_vanish(100 * era, a, 4);
        vstd::arithmetic::div_mod::lemma_mod_multiples_vanish(4 * era, a, 100);
        vstd::arithmetic::div_mod::lemma_mod_multiples_vanish(era, a, 400);
        assert(year == 4 * (100 * era) + a && year == 100 * (4 * era) + a && year == 400 * era + a);
        assert(is_leap_year(year));
    }
    // Back to the day count.
    let yy = if m <= 2 { year - 1 } else { year };
    assert(yy == y);
    vstd::arithmetic::div_mod::lemma_div_multiples_vanish_fancy(era, yoe, 400);
    assert(400 * era + yoe == y);
    assert(yy / 400 == era);
    let mp2 = if m > 2 { m - 3 } else { m + 9 };
    assert(mp2 == mp);
}

/// The UTC calendar fields of a Unix timestamp: year, month, day, hour,
/// minute, second.
pub open spec fn ymdhms_spec(ts: nat) -> (int, int, int, int, int, int) {
    let (y, m, d) = civil_from_days((ts / 86400) as int);
    let sod = ts % 86400;
    (y, m, d, (sod / 3600) as int, ((sod % 3600) / 60) as int, (sod % 60) as int)
}

proof fn lemma_month_ranges(doy: u32)
    requires
        doy <= 365,
    ensures
        (5 * doy + 2) / 153 <= 11,
        1 <= doy - (153 * ((5 * doy + 2) / 153) + 2) / 5 + 1 <= 31,
{
    assert((5 * doy + 2) / 153 <= 11 && 1 <= doy - (153 * ((5 * doy + 2) / 153) + 2) / 5 + 1 <= 31)
        by (bit_vector)
        requires
            doy <= 365,
    ;
}

/// The civil date of a non-negative day count.
fn civil_from_day_count(days: u64) -> (r: (u64, u32, u32))
    requires
        days <= 0x1_0000_0000_0000,
    ensures
        civil_from_days(days as int) == (r.0 as int, r.1 as int, r.2 as int),
        1 <= r.1 <= 12,
        1 <= r.2 <= 31,
{
    let z: u64 = days + 719_468;
    let era: u64 = z / 146_097;
    let doe: u64 = z - era * 146_097;
    assert(doe < 146_097) by (nonlinear_arith)
        requires
            era == z / 146_097,
            doe == z - era * 146_097,
    ;
    proof {
        lemma_civil_ranges(doe as u32);
    }
    let yoe: u64 = (doe - doe / 1460 + doe / 36524 - doe / 146_096) / 365;
    let doy: u64 = doe - (365 * yoe + yoe / 4 - yoe / 100);
    proof {
        lemma_month_ranges(doy as u32);
    }
    let mp: u64 = (5 * doy + 2) / 153;
    let d: u64 = doy - (153 * mp + 2) / 5 + 1;
    let m: u64 = if mp < 10 {
        mp + 3
    } else {
        mp - 9
    };
    assert(era <= 0x1_0000_0000_0000) by (nonlinear_arith)
        requires
            era == z / 146_097,
            z <= 0x1_0000_0000_0000 + 719_468,
    ;
    let y: u64 = yoe + era * 400;
    let yy: u64 = if m <= 2 {
        y + 1
    } else {
        y
    };
    (yy, m as u32, d as u32)
}

pub fn unix_to_ymdhms_utc(ts: u64) -> (r: (i64, u32, u32, u32, u32, u32))
    ensures
        ({
            let (y, m, d, h, mi, s) = ymdhms_spec(ts as nat);
            r.0 == y && r.1 == m && r.2 == d && r.3 == h && r.4 == mi && r.5 == s
        }),
        r.0 >= 0,
        1 <= r.1 <= 12,
        1 <= r.2 <= days_in_month(r.0 as int, r.1 as int),
        r.3 < 24,
        r.4 < 60,
        r.5 < 60,
{
    let secs_per_day: u64 = 86_400;
    let days: u64 = ts / secs_per_day;
    let mut secs_of_day: u64 = ts % secs_per_day;
    let h: u32 = (secs_of_day / 3600) as u32;
    secs_of_day = secs_of_day % 3600;
    let mi: u32 = (secs_of_day / 60) as u32;
    let s: u32 = (secs_of_day % 60) as u32;
    let (y, m, d) = civil_from_day_count(days);
    assert(1 <= d <= days_in_month(y as int, m as int)) by {
        law_civil_date_round_trip(days as int);
    }
    assert(y <= 0x7fff_ffff_ffff_ffff) by (nonlinear_arith)
        requires
            civil_from_days(days as int).0 == y as int,
            days <= 0x1_0000_0000_0000,
    {
    }
    (y as i64, m, d, h, mi, s)
}

/// `n` in decimal, zero padded to at least `width` digits.
pub open spec fn padded_dec(n: nat, width: nat) -> Seq<char> {
    crate::units::pad_zeros(dec_digits(n), width)
}

/// Appends `n` zero padded to `width` digits (`{n:0width$}`).
pub fn push_padded(out: &mut Vec<char>, n: u64, width: usize)
    ensures
        final(out)@ == old(out)@ + padded_dec(n as nat, width as nat),
{
    let mut digits: Vec<char> = Vec::new();
    push_decimal(&mut digits, n);
    assert(digits@ =~= dec_digits(n as nat));
    let ghost start = out@;
    if digits.len() < width {
        let k = width - digits.len();
        let mut i: usize = 0;
        while i < k
            invariant
                i <= k,
                out@ == start + crate::units::zeros(i as nat),
            decreases k - i,
        {
            out.push('0');
            i = i + 1;
            assert(out@ =~= start + crate::units::zeros(i as nat));
        }
    }
    let ghost mid = out@;
    push_chars(out, &digits);
    assert(out@ =~= start + padded_dec(n as nat, width as nat));
}

/// `YYYY-MM-DD HH:MM:SS` in UTC.
pub open spec fn utc_text(ts: nat) -> Seq<char> {
    let (y, m, d, h, mi, s) = ymdhms_spec(ts);
    padded_dec(y as nat, 4) + seq!['-'] + padded_dec(m as nat, 2) + seq!['-'] + padded_dec(d as nat, 2)
        + seq![' '] + padded_dec(h as nat, 2) + seq![':'] + padded_dec(mi as nat, 2) + seq![':']
        + padded_dec(s as nat, 2)
}

pub fn format_unix_utc(ts: u64) -> (r: String)
    ensures
        r@ == utc_text(ts as nat),
{
    let (y, mo, d, h, mi, s) = unix_to_ymdhms_utc(ts);
    let mut out: Vec<char> = Vec::new();
    push_padded(&mut out, y as u64, 4);
    out.push('-');
    push_padded(&mut out, mo as u64, 2);
    out.push('-');
    push_padded(&mut out, d as u64, 2);
    out.push(' ');
    push_padded(&mut out, h as u64, 2);
    out.push(':');
    push_padded(&mut out, mi as u64, 2);
    out.push(':');
    push_padded(&mut out, s as u64, 2);
    assert(out@ =~= utc_text(ts as nat));
    string_of(&out)
}


// ---------------------------------------------------------------------------
// History rows
// ---------------------------------------------------------------------------

/// The alias of the first entry for `a`.
pub open spec fn alias_lookup(aliases: Seq<(Address, Seq<char>)>, a: Address) -> Option<Seq<char>>
    decreases aliases.len(),
{
    if aliases.len() == 0 {
        None
    } else if aliases[0].0 == a {
        Some(aliases[0].1)
    } else {
        alias_lookup(aliases.drop_first(), a)
    }
}

/// The label of the first entry for `(chain_id, a)`.
pub open spec fn label_lookup(labels: Seq<(u64, Address, Seq<char>)>, chain_id: u64, a: Address) -> Option<Seq<char>>
    decreases labels.len(),
{
    if labels.len() == 0 {
        None
    } else if labels[0].0 == chain_id && labels[0].1 == a {
        Some(labels[0].2)
    } else {
        label_lookup(labels.drop_first(), chain_id, a)
    }
}

pub open spec fn aliases_view(v: Seq<(Address, String)>) -> Seq<(Address, Seq<char>)> {
    v.map_values(|e: (Address, String)| (e.0, e.1@))
}

pub open spec fn labels_view(v: Seq<(u64, Address, String)>) -> Seq<(u64, Address, Seq<char>)> {
    v.map_values(|e: (u64, Address, String)| (e.0, e.1, e.2@))
}

/// How an address is named: its alias, else its label on the chain (user
/// labels come before decoder labels in `labels`), else its ENS name, else
/// its short hex form.
pub open spec fn display_address_spec(
    a: Address,
    chain_id: u64,
    aliases: Seq<(Address, Seq<char>)>,
    labels: Seq<(u64, Address, Seq<char>)>,
    ens: Seq<(Address, Seq<char>)>,
) -> Seq<char> {
    match alias_lookup(aliases, a) {
        Some(s) => s,
        None => match label_lookup(labels, chain_id, a) {
            Some(l) => l,
            None => match alias_lookup(ens, a) {
                Some(n) => n,
                None => short_addr_spec(a),
            },
        },
    }
}

pub fn display_address(
    addr: Address,
    chain_id: u64,
    aliases: &[(Address, String)],
    labels: &[(u64, Address, String)],
    ens: &[(Address, String)],
) -> (r: String)
    ensures
        r@ == display_address_spec(addr, chain_id, aliases_view(aliases@), labels_view(labels@), aliases_view(ens@)),
{
    let ghost av = aliases_view(aliases@);
    let ghost lv = labels_view(labels@);
    let mut i: usize = 0;
    assert(av.skip(0) =~= av);
    while i < aliases.len()
        invariant
            i <= aliases@.len(),
            av == aliases_view(aliases@),
            alias_lookup(av.skip(i as int), addr) == alias_lookup(av, addr),
        decreases aliases@.len() - i,
    {
        assert(av.skip(i as int)[0] == av[i as int]);
        assert(av[i as int] == (aliases@[i as int].0, aliases@[i as int].1@));
        if aliases[i].0 == addr {
            let r = aliases[i].1.clone();
            return string_of(&chars_of(r.as_str()));
        }
        assert(av.skip(i as int).drop_first() =~= av.skip(i + 1));
        i = i + 1;
    }
    assert(av.skip(i as int) =~= Seq::<(Address, Seq<char>)>::empty());
    let mut j: usize = 0;
    assert(lv.skip(0) =~= lv);
    while j < labels.len()
        invariant
            j <= labels@.len(),
            lv == labels_view(labels@),
            av == aliases_view(aliases@),
            alias_lookup(av, addr) is None,
            label_lookup(lv.skip(j as int), chain_id, addr) == label_lookup(lv, chain_id, addr),
        decreases labels@.len() - j,
    {
        assert(lv.skip(j as int)[0] == lv[j as int]);
        assert(lv[j as int] == (labels@[j as int].0, labels@[j as int].1, labels@[j as int].2@));
        if labels[j].0 == chain_id && labels[j].1 == addr {
            assert(lv.skip(j as int).len() > 0);
            assert(label_lookup(lv.skip(j as int), chain_id, addr) == Some(lv[j as int].2));
            return string_of(&chars_of(labels[j].2.as_str()));
        }
        assert(lv.skip(j as int).drop_first() =~= lv.skip(j + 1));
        j = j + 1;
    }
    assert(lv.skip(j as int) =~= Seq::<(u64, Address, Seq<char>)>::empty());
    let ghost ev = aliases_view(ens@);
    let mut k: usize = 0;
    assert(ev.skip(0) =~= ev);
    while k < ens.len()
        invariant
            k <= ens@.len(),
            ev == aliases_view(ens@),
            lv == labels_view(labels@),
            av == aliases_view(aliases@),
            alias_lookup(av, addr) is None,
            label_lookup(lv, chain_id, addr) is None,
            alias_lookup(ev.skip(k as int), addr) == alias_lookup(ev, addr),
        decreases ens@.len() - k,
    {
        assert(ev.skip(k as int)[0] == ev[k as int]);
        assert(ev[k as int] == (ens@[k as int].0, ens@[k as int].1@));
        if ens[k].0 == addr {
            return string_of(&chars_of(ens[k].1.as_str()));
        }
        assert(ev.skip(k as int).drop_first() =~= ev.skip(k + 1));
        k = k + 1;
    }
    assert(ev.skip(k as int) =~= Seq::<(Address, Seq<char>)>::empty());
    short_addr(addr)
}

/// The symbol shown for a token: its own, or the short token address when
/// it has none.
pub open spec fn symbol_text(symbol: Seq<char>, token: Address) -> Seq<char> {
    if symbol.len() == 0 {
        short_addr_spec(token)
    } else {
        symbol
    }
}

pub open spec fn token_max_frac(decimals: u32) -> nat {
    if decimals < 6 {
        decimals as nat
    } else {
        6
    }
}

/// One line describing an action.
pub open spec fn action_text_spec(
    action: ActionView,
    chain_id: u64,
    aliases: Seq<(Address, Seq<char>)>,
    labels: Seq<(u64, Address, Seq<char>)>,
    ens: Seq<(Address, Seq<char>)>,
) -> Seq<char> {
    match action {
        ActionView::NativeTransfer { direction, counterparty, amount_wei } => {
            let amount = decimal_text(amount_wei@, 18, 6);
            let cp = display_address_spec(counterparty, chain_id, aliases, labels, ens);
            match direction {
                Direction::Out => "Sent "@ + amount + " ETH to "@ + cp,
                Direction::In => "Received "@ + amount + " ETH from "@ + cp,
                Direction::SelfTransfer => "Self-transfer "@ + amount + " ETH"@,
            }
        },
        ActionView::TokenTransfer { direction, counterparty, token, symbol, decimals, amount } => {
            let shown = decimal_text(amount@, decimals as nat, token_max_frac(decimals));
            let sym = symbol_text(symbol, token);
            let cp = display_address_spec(counterparty, chain_id, aliases, labels, ens);
            match direction {
                Direction::Out => "Sent "@ + shown + " "@ + sym + " to "@ + cp,
                Direction::In => "Received "@ + shown + " "@ + sym + " from "@ + cp,
                Direction::SelfTransfer => "Self-transfer "@ + shown + " "@ + sym,
            }
        },
        ActionView::ContractCall { contract } => "Called contract "@ + display_address_spec(
            contract,
            chain_id,
            aliases,
            labels,
            ens,
        ),
        ActionView::Protocol { protocol, kind, contract, sent, received } => kind_label_spec(kind)
            + " via "@ + protocol,
    }
}

/// `s` ends with `t`.
pub open spec fn ends_with(s: Seq<char>, t: Seq<char>) -> bool {
    t.len() <= s.len() && s.skip(s.len() - t.len()) == t
}

proof fn lemma_affixes(p: Seq<char>, m: Seq<char>, q: Seq<char>)
    ensures
        crate::text::starts_with(p + m + q, p),
        ends_with(p + m + q, q),
{
    assert((p + m + q).take(p.len() as int) =~= p);
    assert((p + m + q).skip((p + m + q).len() - q.len()) =~= q);
}

/// How a transfer reads by its direction: coming in, it begins `Received `
/// and ends naming the sender after `from`; going out, it begins `Sent ` and
/// ends naming the receiver after `to`; to oneself, it begins
/// `Self-transfer `.
pub proof fn law_transfer_text_by_direction(
    action: ActionView,
    chain_id: u64,
    aliases: Seq<(Address, Seq<char>)>,
    labels: Seq<(u64, Address, Seq<char>)>,
    ens: Seq<(Address, Seq<char>)>,
)
    ensures
        ({
            let t = action_text_spec(action, chain_id, aliases, labels, ens);
            &&& action matches ActionView::NativeTransfer { direction, counterparty, .. } ==> {
                let name = display_address_spec(counterparty, chain_id, aliases, labels, ens);
                &&& direction == Direction::In ==> crate::text::starts_with(t, "Received "@) && ends_with(
                    t,
                    " ETH from "@ + name,
                )
                &&& direction == Direction::Out ==> crate::text::starts_with(t, "Sent "@) && ends_with(
                    t,
                    " ETH to "@ + name,
                )
                &&& direction == Direction::SelfTransfer ==> crate::text::starts_with(t, "Self-transfer "@)
            }
            &&& action matches ActionView::TokenTransfer { direction, counterparty, .. } ==> {
                let name = display_address_spec(counterparty, chain_id, aliases, labels, ens);
                &&& direction == Direction::In ==> crate::text::starts_with(t, "Received "@) && ends_with(
                    t,
                    " from "@ + name,
                )
                &&& direction == Direction::Out ==> crate::text::starts_with(t, "Sent "@) && ends_with(
                    t,
                    " to "@ + name,
                )
                &&& direction == Direction::SelfTransfer ==> crate::text::starts_with(t, "Self-transfer "@)
            }
        }),
{
    match action {
        ActionView::NativeTransfer { direction, counterparty, amount_wei } => {
            let amount = decimal_text(amount_wei@, 18, 6);
            let name = display_address_spec(counterparty, chain_id, aliases, labels, ens);
            match direction {
                Direction::In => {
                    assert("Received "@ + amount + " ETH from "@ + name =~= "Received "@ + amount + (" ETH from "@
                        + name));
                    lemma_affixes("Received "@, amount, " ETH from "@ + name);
                },
                Direction::Out => {
                    assert("Sent "@ + amount + " ETH to "@ + name =~= "Sent "@ + amount + (" ETH to "@ + name));
                    lemma_affixes("Sent "@, amount, " ETH to "@ + name);
                },
                Direction::SelfTransfer => {
                    lemma_affixes("Self-transfer "@, amount, " ETH"@);
                },
            }
        },
        ActionView::TokenTransfer { direction, counterparty, token, symbol, decimals, amount } => {
            let shown = decimal_text(amount@, decimals as nat, token_max_frac(decimals));
            let sym = symbol_text(symbol, token);
            let name = display_address_spec(counterparty, chain_id, aliases, labels, ens);
            match direction {
                Direction::In => {
                    assert("Received "@ + shown + " "@ + sym + " from "@ + name =~= "Received "@ + (shown + " "@
                        + sym) + (" from "@ + name));
                    lemma_affixes("Received "@, shown + " "@ + sym, " from "@ + name);
                },
                Direction::Out => {
                    assert("Sent "@ + shown + " "@ + sym + " to "@ + name =~= "Sent "@ + (shown + " "@ + sym) + (
                    " to "@ + name));
                    lemma_affixes("Sent "@, shown + " "@ + sym, " to "@ + name);
                },
                Direction::SelfTransfer => {
                    assert("Self-transfer "@ + shown + " "@ + sym =~= "Self-transfer "@ + shown + (" "@ + sym));
                    lemma_affixes("Self-transfer "@, shown, " "@ + sym);
                },
            }
        },
        _ => {},
    }
}

/// A contract call reads `Called contract ` and the contract's name; a
/// protocol action begins with its kind and ends `via` the protocol.
pub proof fn law_call_and_protocol_texts(
    action: ActionView,
    chain_id: u64,
    aliases: Seq<(Address, Seq<char>)>,
    labels: Seq<(u64, Address, Seq<char>)>,
    ens: Seq<(Address, Seq<char>)>,
)
    ensures
        ({
            let t = action_text_spec(action, chain_id, aliases, labels, ens);
            &&& action matches ActionView::ContractCall { contract } ==> crate::text::starts_with(t, "Called contract "@)
                && ends_with(t, display_address_spec(contract, chain_id, aliases, labels, ens))
            &&& action matches ActionView::Protocol { protocol, kind, .. } ==> crate::text::starts_with(
                t,
                kind_label_spec(kind),
            ) && ends_with(t, " via "@ + protocol)
        }),
{
    match action {
        ActionView::ContractCall { contract } => {
            lemma_affixes("Called contract "@, seq![], display_address_spec(contract, chain_id, aliases, labels, ens));
            assert("Called contract "@ + seq![] =~= "Called contract "@);
        },
        ActionView::Protocol { protocol, kind, .. } => {
            lemma_affixes(kind_label_spec(kind), seq![], " via "@ + protocol);
            assert(kind_label_spec(kind) + seq![] =~= kind_label_spec(kind));
            assert(kind_label_spec(kind) + " via "@ + protocol =~= kind_label_spec(kind) + (" via "@ + protocol));
        },
        _ => {},
    }
}

/// Incoming and outgoing transfers never read alike: an incoming one never
/// begins `Sent `, an outgoing one never begins `Received `.
pub proof fn law_in_and_out_texts_differ(
    action: ActionView,
    chain_id: u64,
    aliases: Seq<(Address, Seq<char>)>,
    labels: Seq<(u64, Address, Seq<char>)>,
    ens: Seq<(Address, Seq<char>)>,
)
    ensures
        ({
            let t = action_text_spec(action, chain_id, aliases, labels, ens);
            let d = match action {
                ActionView::NativeTransfer { direction, .. } => Some(direction),
                ActionView::TokenTransfer { direction, .. } => Some(direction),
                _ => None,
            };
            &&& d == Some(Direction::In) ==> !crate::text::starts_with(t, "Sent "@)
            &&& d == Some(Direction::Out) ==> !crate::text::starts_with(t, "Received "@)
        }),
{
    law_transfer_text_by_direction(action, chain_id, aliases, labels, ens);
    reveal_strlit("Sent ");
    reveal_strlit("Received ");
    let t = action_text_spec(action, chain_id, aliases, labels, ens);
    if crate::text::starts_with(t, "Sent "@) && crate::text::starts_with(t, "Received "@) {
        assert(t.take(5)[0] == t[0] && "Sent "@[0] == 'S');
        assert(t.take(9)[0] == t[0] && "Received "@[0] == 'R');
    }
}

/// The text of one action in the history table.
pub fn format_action(
    action: &Action,
    chain_id: u64,
    aliases: &[(Address, String)],
    labels: &[(u64, Address, String)],
    ens: &[(Address, String)],
) -> (r: String)
    requires
        (action@ matches ActionView::TokenTransfer { decimals, .. } ==> decimals < usize::MAX),
    ensures
        r@ == action_text_spec(action@, chain_id, aliases_view(aliases@), labels_view(labels@), aliases_view(ens@)),
{
    let mut out: Vec<char> = Vec::new();
    match action {
        Action::NativeTransfer { direction, counterparty, amount_wei } => {
            let amount = format_eth_amount(*amount_wei);
            let cp = display_address(*counterparty, chain_id, aliases, labels, ens);
            match direction {
                Direction::Out => {
                    push_text(&mut out, "Sent ");
                    push_text(&mut out, amount.as_str());
                    push_text(&mut out, " ETH to ");
                    push_text(&mut out, cp.as_str());
                },
                Direction::In => {
                    push_text(&mut out, "Received ");
                    push_text(&mut out, amount.as_str());
                    push_text(&mut out, " ETH from ");
                    push_text(&mut out, cp.as_str());
                },
                Direction::SelfTransfer => {
                    push_text(&mut out, "Self-transfer ");
                    push_text(&mut out, amount.as_str());
                    push_text(&mut out, " ETH");
                },
            }
        },
        Action::TokenTransfer { direction, counterparty, token, symbol, decimals, amount } => {
            let shown = format_token_amount(*amount, *decimals);
            let sym = if symbol.as_str().is_empty() {
                short_addr(*token)
            } else {
                string_of(&chars_of(symbol.as_str()))
            };
            let cp = display_address(*counterparty, chain_id, aliases, labels, ens);
            match direction {
                Direction::Out => {
                    push_text(&mut out, "Sent ");
                    push_text(&mut out, shown.as_str());
                    push_text(&mut out, " ");
                    push_text(&mut out, sym.as_str());
                    push_text(&mut out, " to ");
                    push_text(&mut out, cp.as_str());
                },
                Direction::In => {
                    push_text(&mut out, "Received ");
                    push_text(&mut out, shown.as_str());
                    push_text(&mut out, " ");
                    push_text(&mut out, sym.as_str());
                    push_text(&mut out, " from ");
                    push_text(&mut out, cp.as_str());
                },
                Direction::SelfTransfer => {
                    push_text(&mut out, "Self-transfer ");
                    push_text(&mut out, shown.as_str());
                    push_text(&mut out, " ");
                    push_text(&mut out, sym.as_str());
                },
            }
        },
        Action::ContractCall { contract } => {
            let cp = display_address(*contract, chain_id, aliases, labels, ens);
            push_text(&mut out, "Called contract ");
            push_text(&mut out, cp.as_str());
        },
        Action::Protocol { protocol, kind, .. } => {
            push_text(&mut out, kind.label());
            push_text(&mut out, " via ");
            push_text(&mut out, protocol);
        },
    }
    let r = string_of(&out);
    assert(r@ =~= action_text_spec(action@, chain_id, aliases_view(aliases@), labels_view(labels@), aliases_view(ens@)));
    r
}

/// One row of the history table.
pub struct HistoryRow {
    pub time: String,
    pub chain: String,
    pub tx: String,
    pub action: String,
}

pub struct HistoryRowView {
    pub time: Seq<char>,
    pub chain: Seq<char>,
    pub tx: Seq<char>,
    pub action: Seq<char>,
}

impl View for HistoryRow {
    type V = HistoryRowView;

    open spec fn view(&self) -> HistoryRowView {
        HistoryRowView { time: self.time@, chain: self.chain@, tx: self.tx@, action: self.action@ }
    }
}

/// The chain column: the chain's name, or the bare id of an unknown chain.
pub open spec fn chain_column(id: u64) -> Seq<char> {
    match chain_from_id_spec(id) {
        Some(c) => chain_name_spec(c),
        None => dec_digits(id as nat),
    }
}

pub open spec fn history_action_cell(text: Seq<char>, success: bool) -> Seq<char> {
    if success {
        text
    } else {
        "(reverted) "@ + text
    }
}

/// The rows of one transaction: one per action, or a single placeholder
/// row when nothing was decoded.
pub open spec fn tx_rows_spec(
    d: DecodedView,
    aliases: Seq<(Address, Seq<char>)>,
    labels: Seq<(u64, Address, Seq<char>)>,
    ens: Seq<(Address, Seq<char>)>,
) -> Seq<HistoryRowView> {
    let stamp = utc_text(d.timestamp as nat);
    let chain = chain_column(d.chain_id);
    let tx = short_hash_spec(d.hash);
    if d.actions.len() == 0 {
        seq![
            HistoryRowView {
                time: stamp,
                chain,
                tx,
                action: if d.success {
                    "(no decoded actions)"@
                } else {
                    "(reverted)"@
                },
            },
        ]
    } else {
        Seq::new(
            d.actions.len(),
            |k: int|
                HistoryRowView {
                    time: stamp,
                    chain,
                    tx,
                    action: history_action_cell(action_text_spec(d.actions[k], d.chain_id, aliases, labels, ens), d.success),
                },
        )
    }
}

pub open spec fn history_rows_spec(
    ds: Seq<DecodedView>,
    aliases: Seq<(Address, Seq<char>)>,
    labels: Seq<(u64, Address, Seq<char>)>,
    ens: Seq<(Address, Seq<char>)>,
) -> Seq<HistoryRowView>
    decreases ds.len(),
{
    if ds.len() == 0 {
        seq![]
    } else {
        history_rows_spec(ds.drop_last(), aliases, labels, ens) + tx_rows_spec(ds.last(), aliases, labels, ens)
    }
}

pub open spec fn rows_view(v: Seq<HistoryRow>) -> Seq<HistoryRowView> {
    v.map_values(|r: HistoryRow| r@)
}

pub open spec fn decoded_view(v: Seq<DecodedTx>) -> Seq<DecodedView> {
    v.map_values(|d: DecodedTx| d@)
}

/// Whether a decoded transaction can be shown: a hash that can be cut for
/// its short form, and token decimals that fit the machine's sizes.
pub open spec fn showable(d: DecodedView) -> bool {
    &&& hash_cuttable(d.hash)
    &&& forall|k: int| 0 <= k < d.actions.len() ==> (#[trigger] d.actions[k] matches ActionView::TokenTransfer {
        decimals,
        ..
    } ==> decimals < usize::MAX)
}

/// The chain column: the chain's name, or the bare id of an unknown chain.
pub fn chain_text(id: u64) -> (r: String)
    ensures
        r@ == chain_column(id),
{
    match Chain::from_id(id) {
        Some(c) => c.to_string(),
        None => {
            let mut v: Vec<char> = Vec::new();
            push_decimal(&mut v, id);
            assert(v@ =~= dec_digits(id as nat));
            string_of(&v)
        },
    }
}

fn copy_string(s: &String) -> (r: String)
    ensures
        r@ == s@,
{
    string_of(&chars_of(s.as_str()))
}

/// The history table's rows, transaction by transaction.
pub fn history_rows(
    decoded: &[DecodedTx],
    aliases: &[(Address, String)],
    labels: &[(u64, Address, String)],
    ens: &[(Address, String)],
) -> (r: Vec<HistoryRow>)
    requires
        forall|i: int| 0 <= i < decoded@.len() ==> showable(#[trigger] decoded@[i]@),
    ensures
        rows_view(r@) == history_rows_spec(decoded_view(decoded@), aliases_view(aliases@), labels_view(labels@), aliases_view(ens@)),
{
    let ghost av = aliases_view(aliases@);
    let ghost lv = labels_view(labels@);
    let ghost ev = aliases_view(ens@);
    let ghost dv = decoded_view(decoded@);
    let mut out: Vec<HistoryRow> = Vec::new();
    let mut i: usize = 0;
    while i < decoded.len()
        invariant
            i <= decoded@.len(),
            av == aliases_view(aliases@),
            lv == labels_view(labels@),
            ev == aliases_view(ens@),
            dv == decoded_view(decoded@),
            forall|q: int| 0 <= q < decoded@.len() ==> showable(#[trigger] decoded@[q]@),
            rows_view(out@) == history_rows_spec(dv.take(i as int), av, lv, ev),
        decreases decoded@.len() - i,
    {
        let d = &decoded[i];
        assert(dv.take(i + 1).drop_last() =~= dv.take(i as int));
        assert(dv.take(i + 1).last() == d@);
        assert(showable(decoded@[i as int]@));
        let ghost before = rows_view(out@);
        let stamp = format_unix_utc(d.timestamp);
        let chain = chain_text(d.chain_id);
        let tx = short_hash(d.hash.as_str());
        let n = d.actions.len();
        if n == 0 {
            let text = if d.success {
                string_of(&chars_of("(no decoded actions)"))
            } else {
                string_of(&chars_of("(reverted)"))
            };
            out.push(HistoryRow { time: stamp, chain, tx, action: text });
            assert(rows_view(out@) =~= before + tx_rows_spec(d@, av, lv, ev));
        } else {
            let mut k: usize = 0;
            while k < n
                invariant
                    k <= n == d.actions@.len(),
                    d@ == dv[i as int],
                    showable(d@),
                    stamp@ == utc_text(d.timestamp as nat),
                    chain@ == chain_column(d.chain_id),
                    tx@ == short_hash_spec(d.hash@),
                    av == aliases_view(aliases@),
                    lv == labels_view(labels@),
                    ev == aliases_view(ens@),
                    rows_view(out@) == before + tx_rows_spec(d@, av, lv, ev).take(k as int),
                decreases n - k,
            {
                assert(d@.actions[k as int] == d.actions@[k as int]@);
                let text = format_action(&d.actions[k], d.chain_id, aliases, labels, ens);
                let cell = if d.success {
                    text
                } else {
                    let mut v = chars_of("(reverted) ");
                    crate::text::push_chars(&mut v, &chars_of(text.as_str()));
                    string_of(&v)
                };
                let row = HistoryRow { time: copy_string(&stamp), chain: copy_string(&chain), tx: copy_string(&tx), action: cell };
                assert(row@ =~~= tx_rows_spec(d@, av, lv, ev)[k as int]);
                let ghost mid = rows_view(out@);
                out.push(row);
                assert(rows_view(out@) =~~= mid.push(row@));
                k = k + 1;
                assert(rows_view(out@) =~~= before + tx_rows_spec(d@, av, lv, ev).take(k as int));
            }
            assert(tx_rows_spec(d@, av, lv, ev).take(n as int) =~= tx_rows_spec(d@, av, lv, ev));
        }
        i = i + 1;
    }
    assert(dv.take(decoded@.len() as int) =~= dv);
    out
}


/// Whether [`history_rows`] can show the transaction (see [`showable`]).
pub fn showable_tx(d: &DecodedTx) -> (b: bool)
    ensures
        b == showable(d@),
{
    let h = d.hash.as_str();
    let n = h.as_bytes().len();
    assert(h.spec_bytes() == encode_utf8(d.hash@) && n == h.spec_bytes().len());
    if n > 12 && !(h.is_char_boundary(6) && h.is_char_boundary(n - 4)) {
        return false;
    }
    assert(hash_cuttable(d.hash@));
    let mut k: usize = 0;
    while k < d.actions.len()
        invariant
            k <= d.actions@.len(),
            hash_cuttable(d.hash@),
            forall|q: int| 0 <= q < k ==> (#[trigger] actions_view(d.actions@)[q] matches ActionView::TokenTransfer {
                decimals,
                ..
            } ==> decimals < usize::MAX),
        decreases d.actions@.len() - k,
    {
        assert(actions_view(d.actions@)[k as int] == d.actions@[k as int]@);
        match &d.actions[k] {
            Action::TokenTransfer { decimals, .. } => {
                if (*decimals as usize) == usize::MAX {
                    assert(actions_view(d.actions@)[k as int] matches ActionView::TokenTransfer { decimals: dd, .. } && dd == usize::MAX);
                    return false;
                }
            },
            _ => {},
        }
        k = k + 1;
    }
    assert(d@.actions == actions_view(d.actions@));
    true
}

} // verus!
