//! The block explorer (Etherscan v2) account endpoints: the rows they
//! return, the API key check, rate-limit detection and backoff, request
//! spacing and paging.

use vstd::prelude::*;

use crate::primitives::dec_digits;
use crate::text::{
    chars_of, contains_chars, contains_seq, parse_u64, parse_u64_spec, push_text, str_eq, string_of, trim, trim_chars,
    push_decimal,
};
use vstd::string::StringSliceAdditionalSpecFns;

verus! {

/// Rows per page the explorer is asked for.
pub const PAGE_SIZE: u64 = 10_000;

/// Least time between two requests, in milliseconds.
pub const MIN_REQUEST_INTERVAL_MS: u64 = 350;

/// Backoff per attempt after a rate-limit answer, in milliseconds.
pub const RATE_LIMIT_BACKOFF_MS: u64 = 2_000;

/// Retries after rate-limit answers.
pub const MAX_RETRIES: u32 = 3;

/// One normal transaction of an account.
#[derive(Debug)]
pub struct EtherscanTx {
    pub block_number: u64,
    pub timestamp: u64,
    pub hash: String,
    pub from: String,
    pub to: String,
    pub value: String,
    pub input: String,
    pub receipt_status: String,
    pub is_error: String,
}

/// One ERC-20 transfer of an account.
#[derive(Debug)]
pub struct EtherscanTokenTx {
    pub block_number: u64,
    pub timestamp: u64,
    pub hash: String,
    pub contract_address: String,
    pub from: String,
    pub to: String,
    pub value: String,
    pub token_symbol: String,
    pub token_decimal: u64,
}

/// The explorer account, by API key.
#[derive(Debug)]
pub struct Explorer {
    api_key: String,
}

#[derive(Debug, PartialEq, Eq, Structural)]
pub enum ExplorerError {
    /// No API key, or only whitespace.
    MissingApiKey,
}

impl Explorer {
    pub closed spec fn key(&self) -> Seq<char> {
        self.api_key@
    }

    /// An explorer for the key; a blank key is refused.
    pub fn new(api_key: String) -> (r: Result<Explorer, ExplorerError>)
        ensures
            trim(api_key@).len() == 0 <==> r is Err,
            r matches Ok(e) ==> e.key() == api_key@,
    {
        if trim_chars(&chars_of(api_key.as_str())).len() == 0 {
            return Err(ExplorerError::MissingApiKey);
        }
        Ok(Explorer { api_key })
    }

    /// The API key.
    pub fn api_key(&self) -> (r: &str)
        ensures
            r@ == self.key(),
    {
        self.api_key.as_str()
    }
}

pub open spec fn rate_limit_markers() -> Seq<Seq<char>> {
    seq!["rate limit"@, "Max calls per sec"@]
}

/// An answer that says the caller is rate limited: not a success, and its
/// message or string result mentions the limit.
pub open spec fn rate_limited_spec(status: Seq<char>, message: Seq<char>, result_text: Option<Seq<char>>) -> bool {
    let r = match result_text {
        Some(t) => t,
        None => seq![],
    };
    status != "1"@ && exists|i: int| 0 <= i < 2 && (contains_seq(message, #[trigger] rate_limit_markers()[i])
        || contains_seq(r, rate_limit_markers()[i]))
}

/// Whether an answer is a rate-limit refusal. `result_text` is the result
/// when it is a JSON string.
pub fn is_rate_limited(status: &str, message: &str, result_text: Option<&str>) -> (b: bool)
    ensures
        b == rate_limited_spec(status@, message@, match result_text {
            Some(t) => Some(t@),
            None => None,
        }),
{
    proof {
        reveal_strlit("1");
        reveal_strlit("rate limit");
        reveal_strlit("Max calls per sec");
    }
    if str_eq(status, "1") {
        return false;
    }
    let msg = chars_of(message);
    let res = match result_text {
        Some(t) => chars_of(t),
        None => Vec::new(),
    };
    let a = chars_of("rate limit");
    let b = chars_of("Max calls per sec");
    let hit = contains_chars(&msg, &a) || contains_chars(&res, &a) || contains_chars(&msg, &b) || contains_chars(&res, &b);
    proof {
        let m = rate_limit_markers();
        assert(m[0] == a@ && m[1] == b@);
        let r = match result_text {
            Some(t) => t@,
            None => seq![],
        };
        assert(res@ == r);
        if contains_seq(msg@, a@) || contains_seq(r, a@) {
            assert(contains_seq(message@, m[0]) || contains_seq(r, m[0]));
        }
        if contains_seq(msg@, b@) || contains_seq(r, b@) {
            assert(contains_seq(message@, m[1]) || contains_seq(r, m[1]));
        }
    }
    hit
}

/// Whether to back off and try again, and for how long: only for a
/// rate-limit answer while retries remain, `2 s` times the retry number.
pub fn rate_limit_retry(limited: bool, attempt: u32) -> (r: Option<(u32, u64)>)
    ensures
        (limited && attempt < MAX_RETRIES) ==> r == Some(((attempt + 1) as u32, (RATE_LIMIT_BACKOFF_MS * (attempt + 1)) as u64)),
        !(limited && attempt < MAX_RETRIES) ==> r is None,
{
    if limited && attempt < MAX_RETRIES {
        let next = attempt + 1;
        Some((next, RATE_LIMIT_BACKOFF_MS * (next as u64)))
    } else {
        None
    }
}

/// How long to wait before the next request, given the time since the last
/// one (none yet: no wait).
pub fn throttle_wait_ms(since_last_ms: Option<u64>) -> (r: u64)
    ensures
        r == match since_last_ms {
            Some(e) => if e < MIN_REQUEST_INTERVAL_MS { MIN_REQUEST_INTERVAL_MS - e } else { 0 },
            None => 0,
        },
{
    match since_last_ms {
        Some(e) => if e < MIN_REQUEST_INTERVAL_MS {
            MIN_REQUEST_INTERVAL_MS - e
        } else {
            0
        },
        None => 0,
    }
}

/// What an answer's status says about the page.
#[derive(Debug, PartialEq, Eq, Structural)]
pub enum AnswerKind {
    /// No (more) transactions.
    NoTransactions,
    /// A refusal; the message is reported.
    Refused,
    /// A page of rows.
    Rows,
}

pub open spec fn answer_kind_spec(status: Seq<char>, message: Seq<char>) -> AnswerKind {
    if status == "0"@ && message == "No transactions found"@ {
        AnswerKind::NoTransactions
    } else if status != "1"@ {
        AnswerKind::Refused
    } else {
        AnswerKind::Rows
    }
}

pub fn answer_kind(status: &str, message: &str) -> (r: AnswerKind)
    ensures
        r == answer_kind_spec(status@, message@),
{
    if str_eq(status, "0") && str_eq(message, "No transactions found") {
        AnswerKind::NoTransactions
    } else if !str_eq(status, "1") {
        AnswerKind::Refused
    } else {
        AnswerKind::Rows
    }
}

pub open spec fn max_or(s: Seq<u64>, start: u64) -> u64 {
    match crate::db::max_block(s) {
        Some(m) => m,
        None => start,
    }
}

/// After a page of rows with these block numbers, asked from `start`: the
/// block to ask the next page from, or `None` when this was the last page
/// (empty, or shorter than a full page).
pub fn next_page_start(blocks: &[u64], start: u64) -> (r: Option<u64>)
    ensures
        (blocks@.len() == 0 || blocks@.len() < PAGE_SIZE) ==> r is None,
        !(blocks@.len() == 0 || blocks@.len() < PAGE_SIZE) ==> r == Some(max_or(blocks@, start)),
{
    let n = blocks.len();
    if n == 0 || (n as u64) < PAGE_SIZE {
        return None;
    }
    match crate::db::highest_block(blocks) {
        Some(m) => Some(m),
        None => Some(start),
    }
}

/// A number field as text: its `u64` value.
pub fn parse_u64_field(s: &str) -> (r: Option<u64>)
    ensures
        r == parse_u64_spec(s@),
{
    parse_u64(&chars_of(s))
}

/// An optional number field: empty text is 0.
pub fn parse_u64_field_or_zero(s: &str) -> (r: Option<u64>)
    ensures
        r == if s@.len() == 0 { Some(0u64) } else { parse_u64_spec(s@) },
{
    if s.is_empty() {
        Some(0)
    } else {
        parse_u64(&chars_of(s))
    }
}


// ---------------------------------------------------------------------------
// Request URLs
// ---------------------------------------------------------------------------

/// Bytes a form-encoded value keeps as they are.
pub open spec fn form_unchanged(b: u8) -> bool {
    (48 <= b <= 57) || (65 <= b <= 90) || (97 <= b <= 122) || b == 42 || b == 45 || b == 46 || b == 95
}

pub open spec fn hex_upper(d: nat) -> char {
    if d < 10 {
        (48 + d) as char
    } else {
        (55 + d) as char
    }
}

/// `application/x-www-form-urlencoded` of one byte: unchanged, `+` for a
/// space, else `%` and two uppercase hex digits.
pub open spec fn form_byte(b: u8) -> Seq<char> {
    if form_unchanged(b) {
        seq![b as char]
    } else if b == 32 {
        seq!['+']
    } else {
        seq!['%', hex_upper(b as nat / 16), hex_upper(b as nat % 16)]
    }
}

pub open spec fn form_encoded(bs: Seq<u8>) -> Seq<char>
    decreases bs.len(),
{
    if bs.len() == 0 {
        seq![]
    } else {
        form_encoded(bs.drop_last()) + form_byte(bs.last())
    }
}

fn hex_upper_char(d: u8) -> (c: char)
    requires
        d < 16,
    ensures
        c == hex_upper(d as nat),
{
    if d < 10 {
        (48 + d) as char
    } else {
        (55 + d) as char
    }
}

/// Appends the form encoding of `s`'s UTF-8 bytes.
pub fn push_form_encoded(out: &mut Vec<char>, s: &str)
    ensures
        final(out)@ == old(out)@ + form_encoded(s.spec_bytes()),
{
    let bytes = s.as_bytes();
    let ghost start = out@;
    let mut i: usize = 0;
    while i < bytes.len()
        invariant
            i <= bytes@.len(),
            bytes@ == s.spec_bytes(),
            out@ == start + form_encoded(bytes@.take(i as int)),
        decreases bytes@.len() - i,
    {
        let b = bytes[i];
        assert(bytes@.take(i + 1).drop_last() =~= bytes@.take(i as int));
        assert(bytes@.take(i + 1).last() == b);
        if (48 <= b && b <= 57) || (65 <= b && b <= 90) || (97 <= b && b <= 122) || b == 42 || b == 45 || b == 46
            || b == 95 {
            out.push(b as char);
        } else if b == 32 {
            out.push('+');
        } else {
            out.push('%');
            out.push(hex_upper_char(b / 16));
            out.push(hex_upper_char(b % 16));
        }
        i = i + 1;
        assert(out@ =~= start + form_encoded(bytes@.take(i as int)));
    }
    assert(bytes@.take(bytes@.len() as int) =~= bytes@);
}

/// A `key=value` pair with the value form-encoded. Digits and the fixed
/// values below are left unchanged by the encoding, so they stand as they
/// are.
pub open spec fn param(key: Seq<char>, value: &str) -> Seq<char> {
    key + seq!['='] + form_encoded(value.spec_bytes())
}

/// The account endpoint URL asking for one page of `action` rows of
/// `address` from block `start`, ascending, with the API key.
pub open spec fn account_url_spec(chain_id: u64, action: &str, address: &str, start: u64, api_key: &str) -> Seq<char> {
    "https://api.etherscan.io/v2/api?chainid="@ + dec_digits(chain_id as nat) + "&module=account&"@ + param(
        "action"@,
        action,
    ) + "&"@ + param("address"@, address) + "&startblock="@ + dec_digits(start as nat)
        + "&endblock=99999999&page=1&offset="@ + dec_digits(PAGE_SIZE as nat) + "&sort=asc&"@ + param(
        "apikey"@,
        api_key,
    )
}

fn push_param(out: &mut Vec<char>, key: &str, value: &str)
    ensures
        final(out)@ == old(out)@ + param(key@, value),
{
    let ghost before = out@;
    push_text(out, key);
    out.push('=');
    push_form_encoded(out, value);
    assert(out@ =~= before + param(key@, value));
}

pub fn account_url(chain_id: u64, action: &str, address: &str, start: u64, api_key: &str) -> (r: String)
    ensures
        r@ == account_url_spec(chain_id, action, address, start, api_key),
{
    let mut out = chars_of("https://api.etherscan.io/v2/api?chainid=");
    push_decimal(&mut out, chain_id);
    push_text(&mut out, "&module=account&");
    push_param(&mut out, "action", action);
    push_text(&mut out, "&");
    push_param(&mut out, "address", address);
    push_text(&mut out, "&startblock=");
    push_decimal(&mut out, start);
    push_text(&mut out, "&endblock=99999999&page=1&offset=");
    push_decimal(&mut out, PAGE_SIZE);
    push_text(&mut out, "&sort=asc&");
    push_param(&mut out, "apikey", api_key);
    let r = string_of(&out);
    assert(r@ =~= account_url_spec(chain_id, action, address, start, api_key));
    r
}

} // verus!
