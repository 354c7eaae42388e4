//! What the local database stores and reads back, decided without the
//! database: row values, sync bookkeeping, cache freshness and the ordering
//! of unknown counterparties.

use vstd::prelude::*;

use crate::decode::erc20::{RawTransfer, RawTx, RawTxView, TransferView};
use crate::primitives::{address_hex, address_parse_spec, address_to_hex, parse_address, parse_u256, u256_parse_spec, Address};
use crate::keyed::{lemma_filter_insert, lemma_filter_push};
use crate::explorer::{EtherscanTokenTx, EtherscanTx};
use crate::text::{to_lowercase, unicode_lowercase, chars_lt, chars_of, lemma_seq_lt_irrefl, lemma_seq_lt_total, lemma_seq_lt_trans, seq_lt, str_eq};
use crate::decode::{DecodedTx, DecodedView};
use vstd::string::StringSliceAdditionalSpecFns;

verus! {

broadcast use vstd::seq_lib::to_multiset_insert, vstd::seq_lib::to_multiset_build;

/// What one sync wrote: transactions, token transfers and the highest block
/// seen (0 when nothing was seen).
#[derive(Debug, Clone, Copy)]
pub struct SyncSummary {
    pub tx_count: usize,
    pub transfer_count: usize,
    pub highest_block: u64,
}

#[derive(Debug, Clone, Copy, PartialEq, Eq, Structural)]
pub struct UnknownCounterparty {
    pub chain_id: u64,
    pub address: Address,
    pub interactions: u64,
}

#[derive(Debug, Clone, Copy)]
pub struct CachedStakingSummary {
    pub validator_count: u64,
    pub total_balance_gwei: u64,
}

/// The text an address is stored under: `0x` and 40 lowercase hex digits.
pub fn addr_to_db(a: Address) -> (r: String)
    ensures
        r@ == address_hex(a),
{
    address_to_hex(a)
}

// ---------------------------------------------------------------------------
// Transactions
// ---------------------------------------------------------------------------

/// The bytes of calldata written as hex: half the hex digits after an
/// optional `0x`.
pub open spec fn input_len_spec(b: Seq<u8>) -> nat {
    if b.len() >= 2 && b[0] == 48u8 && b[1] == 120u8 {
        ((b.len() - 2) / 2) as nat
    } else {
        b.len() / 2
    }
}

pub fn input_len(input_hex: &str) -> (r: usize)
    ensures
        r == input_len_spec(input_hex.spec_bytes()),
{
    let b = input_hex.as_bytes();
    let n = b.len();
    if n >= 2 && b[0] == 48u8 && b[1] == 120u8 {
        (n - 2) / 2
    } else {
        n / 2
    }
}

/// Explorer status fields: success when `isError` is `"0"` and the receipt
/// status is not `"0"`.
pub fn tx_success(is_error: &str, receipt_status: &str) -> (r: bool)
    ensures
        r == (is_error@ == seq!['0'] && receipt_status@ != seq!['0']),
{
    proof {
        reveal_strlit("0");
        assert("0"@ =~= seq!['0']);
    }
    let ok = str_eq(is_error, "0");
    let failed_receipt = str_eq(receipt_status, "0");
    ok && !failed_receipt
}

/// How many earlier entries carry the same hash.
pub open spec fn earlier_count(hashes: Seq<Seq<char>>, i: int) -> nat
    decreases i,
{
    if i <= 0 {
        0
    } else if hashes[i - 1] == hashes[i] {
        earlier_count(hashes, i - 1) + 1
    } else {
        earlier_count(hashes, i - 1)
    }
}

/// Occurrences of `h` among the first `k` entries.
pub open spec fn count_in_prefix(hashes: Seq<Seq<char>>, h: Seq<char>, k: int) -> nat
    decreases k,
{
    if k <= 0 {
        0
    } else if hashes[k - 1] == h {
        count_in_prefix(hashes, h, k - 1) + 1
    } else {
        count_in_prefix(hashes, h, k - 1)
    }
}

pub open spec fn hashes_view(v: Seq<String>) -> Seq<Seq<char>> {
    v.map_values(|s: String| s@)
}

proof fn lemma_count_in_prefix_le(hashes: Seq<Seq<char>>, h: Seq<char>, k: int)
    requires
        0 <= k,
    ensures
        count_in_prefix(hashes, h, k) <= k,
    decreases k,
{
    if k > 0 {
        lemma_count_in_prefix_le(hashes, h, k - 1);
    }
}

/// The log index of each token transfer within its transaction: transfers
/// of one transaction are numbered 0, 1, 2, ... in the order they came.
pub fn log_indices(hashes: &[String]) -> (r: Vec<u64>)
    ensures
        r@.len() == hashes@.len(),
        forall|i: int| 0 <= i < r@.len() ==> r@[i] == count_in_prefix(hashes_view(hashes@), hashes_view(hashes@)[i], i),
{
    let ghost hv = hashes_view(hashes@);
    let mut r: Vec<u64> = Vec::new();
    let mut i: usize = 0;
    while i < hashes.len()
        invariant
            i <= hashes@.len(),
            hv == hashes_view(hashes@),
            r@.len() == i,
            forall|q: int| 0 <= q < i ==> r@[q] == count_in_prefix(hv, hv[q], q),
        decreases hashes@.len() - i,
    {
        let mut c: u64 = 0;
        let mut j: usize = 0;
        while j < i
            invariant
                j <= i < hashes@.len(),
                hv == hashes_view(hashes@),
                c == count_in_prefix(hv, hv[i as int], j as int),
                c <= j,
            decreases i - j,
        {
            proof {
                lemma_count_in_prefix_le(hv, hv[i as int], j as int);
            }
            let same = str_eq(hashes[j].as_str(), hashes[i].as_str());
            assert(same == (hv[j as int] == hv[i as int]));
            if same {
                c = c + 1;
            }
            j = j + 1;
        }
        r.push(c);
        i = i + 1;
    }
    r
}

/// The largest of the blocks, if any.
pub open spec fn max_block(s: Seq<u64>) -> Option<u64>
    decreases s.len(),
{
    if s.len() == 0 {
        None
    } else {
        match max_block(s.drop_last()) {
            None => Some(s.last()),
            Some(m) => Some(if s.last() > m { s.last() } else { m }),
        }
    }
}

pub fn highest_block(blocks: &[u64]) -> (r: Option<u64>)
    ensures
        r == max_block(blocks@),
        r matches Some(m) ==> (forall|i: int| 0 <= i < blocks@.len() ==> blocks@[i] <= m) && blocks@.contains(m),
        r is None <==> blocks@.len() == 0,
{
    let mut best: Option<u64> = None;
    let mut i: usize = 0;
    while i < blocks.len()
        invariant
            i <= blocks@.len(),
            best == max_block(blocks@.take(i as int)),
            best is None <==> i == 0,
            best matches Some(m) ==> (forall|q: int| 0 <= q < i ==> blocks@[q] <= m) && blocks@.take(i as int).contains(m),
        decreases blocks@.len() - i,
    {
        assert(blocks@.take(i + 1).drop_last() =~= blocks@.take(i as int));
        let b = blocks[i];
        let ghost prev = best;
        best = match best {
            None => Some(b),
            Some(m) => Some(if b > m { b } else { m }),
        };
        proof {
            let t = blocks@.take(i + 1);
            assert(t[i as int] == b);
            if let Some(m) = prev {
                let w = choose|w: int| 0 <= w < i && blocks@.take(i as int)[w] == m;
                assert(t[w] == m);
            }
        }
        i = i + 1;
    }
    assert(blocks@.take(blocks@.len() as int) =~= blocks@);
    best
}

/// The summary of one sync: the counts, and the highest block among both
/// kinds of rows (0 when there are none).
pub fn sync_summary(tx_blocks: &[u64], transfer_blocks: &[u64]) -> (r: SyncSummary)
    ensures
        r.tx_count == tx_blocks@.len(),
        r.transfer_count == transfer_blocks@.len(),
        r.highest_block == match max_block(tx_blocks@ + transfer_blocks@) {
            Some(m) => m,
            None => 0,
        },
{
    let mut all: Vec<u64> = Vec::new();
    let mut i: usize = 0;
    while i < tx_blocks.len()
        invariant
            i <= tx_blocks@.len(),
            all@ == tx_blocks@.take(i as int),
        decreases tx_blocks@.len() - i,
    {
        all.push(tx_blocks[i]);
        i = i + 1;
        assert(all@ =~= tx_blocks@.take(i as int));
    }
    let mut j: usize = 0;
    while j < transfer_blocks.len()
        invariant
            j <= transfer_blocks@.len(),
            i == tx_blocks@.len(),
            all@ == tx_blocks@.take(i as int) + transfer_blocks@.take(j as int),
        decreases transfer_blocks@.len() - j,
    {
        all.push(transfer_blocks[j]);
        j = j + 1;
        assert(all@ =~= tx_blocks@.take(i as int) + transfer_blocks@.take(j as int));
    }
    assert(all@ =~= tx_blocks@ + transfer_blocks@);
    let highest = match highest_block(&all) {
        Some(m) => m,
        None => 0,
    };
    SyncSummary { tx_count: tx_blocks.len(), transfer_count: transfer_blocks.len(), highest_block: highest }
}

/// A stored last-synced block read back: negative values count as 0, and
/// an address never synced starts at 0.
pub fn last_synced_from(block: Option<i64>) -> (r: u64)
    ensures
        r == match block {
            Some(b) => if b < 0 { 0 } else { b as int },
            None => 0,
        },
{
    match block {
        Some(b) => if b < 0 {
            0
        } else {
            b as u64
        },
        None => 0,
    }
}

/// The watermark stored after a sync: the higher of the one stored before
/// (if any) and the highest block just seen, so it never goes down.
pub fn next_watermark(stored: Option<i64>, highest: u64) -> (r: u64)
    ensures
        r == match stored {
            Some(b) => if b > highest { b as int } else { highest as int },
            None => highest as int,
        },
        r >= highest,
        stored matches Some(b) ==> r >= b,
{
    match stored {
        Some(b) => if b >= 0 && b as u64 > highest {
            b as u64
        } else {
            highest
        },
        None => highest,
    }
}

// ---------------------------------------------------------------------------
// Explorer rows as stored
// ---------------------------------------------------------------------------

/// The stored text fields of one explorer transaction.
pub struct TxRow {
    /// The sender, lowercased.
    pub from: String,
    /// The receiver, lowercased; `None` for a contract creation (no `to`).
    pub to: Option<String>,
    /// Bytes of call data.
    pub input_len: usize,
    pub success: bool,
}

/// The stored text fields of one explorer token transfer, addresses
/// lowercased.
pub struct TransferRow {
    pub token: String,
    pub from: String,
    pub to: String,
}

/// How a transaction is stored: addresses lowercased, an empty `to` stored
/// as none, the call-data length and the success flag.
pub fn tx_row(t: &EtherscanTx) -> (r: TxRow)
    ensures
        r.from@ == unicode_lowercase(t.from@),
        t.to@.len() == 0 ==> r.to is None,
        t.to@.len() != 0 ==> (r.to matches Some(x) && x@ == unicode_lowercase(t.to@)),
        r.input_len == input_len_spec(vstd::utf8::encode_utf8(t.input@)),
        r.success == (t.is_error@ == seq!['0'] && t.receipt_status@ != seq!['0']),
{
    let to = if t.to.as_str().is_empty() {
        None
    } else {
        Some(to_lowercase(t.to.as_str()))
    };
    TxRow {
        from: to_lowercase(t.from.as_str()),
        to,
        input_len: input_len(t.input.as_str()),
        success: tx_success(t.is_error.as_str(), t.receipt_status.as_str()),
    }
}

/// How a token transfer's addresses are stored: lowercased.
pub fn transfer_row(t: &EtherscanTokenTx) -> (r: TransferRow)
    ensures
        r.token@ == unicode_lowercase(t.contract_address@),
        r.from@ == unicode_lowercase(t.from@),
        r.to@ == unicode_lowercase(t.to@),
{
    TransferRow {
        token: to_lowercase(t.contract_address.as_str()),
        from: to_lowercase(t.from.as_str()),
        to: to_lowercase(t.to.as_str()),
    }
}

// ---------------------------------------------------------------------------
// ENS lookups still owed
// ---------------------------------------------------------------------------

/// Whether `a` is among `v`.
pub(crate) fn address_in(v: &[Address], a: Address) -> (b: bool)
    ensures
        b == v@.contains(a),
{
    let mut i: usize = 0;
    while i < v.len()
        invariant
            i <= v@.len(),
            forall|q: int| 0 <= q < i ==> #[trigger] v@[q] != a,
        decreases v@.len() - i,
    {
        if v[i] == a {
            assert(v@[i as int] == a);
            return true;
        }
        i = i + 1;
    }
    false
}

/// The counterparty addresses not yet in the ENS cache, each once, in the
/// order of their first appearance.
pub open spec fn ens_pending_spec(counterparties: Seq<UnknownCounterparty>, cached: Seq<Address>) -> Seq<Address>
    decreases counterparties.len(),
{
    if counterparties.len() == 0 {
        seq![]
    } else {
        let r = ens_pending_spec(counterparties.drop_last(), cached);
        let a = counterparties.last().address;
        if cached.contains(a) || r.contains(a) {
            r
        } else {
            r.push(a)
        }
    }
}

/// The addresses still to be looked up in ENS (see [`ens_pending_spec`]).
pub fn ens_pending(counterparties: &[UnknownCounterparty], cached: &[Address]) -> (r: Vec<Address>)
    ensures
        r@ == ens_pending_spec(counterparties@, cached@),
{
    let ghost c = counterparties@;
    let mut out: Vec<Address> = Vec::new();
    let mut i: usize = 0;
    while i < counterparties.len()
        invariant
            i <= c.len(),
            c == counterparties@,
            out@ == ens_pending_spec(c.take(i as int), cached@),
        decreases c.len() - i,
    {
        assert(c.take(i + 1).drop_last() =~= c.take(i as int));
        let a = counterparties[i].address;
        if !address_in(cached, a) && !address_in(out.as_slice(), a) {
            out.push(a);
        }
        i = i + 1;
    }
    assert(c.take(c.len() as int) =~= c);
    out
}

// ---------------------------------------------------------------------------
// Stored rows back to records
// ---------------------------------------------------------------------------

/// A stored transaction row as a record: `None` if an address or the value
/// does not parse. Integers are read as the row's types cast to the record's
/// (`as`), a status other than 0 is success, and the row holds no internal
/// calls.
pub open spec fn raw_tx_row_spec(
    chain_id: i64,
    hash: Seq<char>,
    timestamp: i64,
    from: Seq<char>,
    to: Option<Seq<char>>,
    value: Seq<char>,
    input_len: i64,
    status: i64,
) -> Option<RawTxView> {
    let to_parsed: Option<Option<Address>> = match to {
        None => Some(None),
        Some(t) => match address_parse_spec(t) {
            Some(a) => Some(Some(a)),
            None => None,
        },
    };
    match (address_parse_spec(from), to_parsed, u256_parse_spec(value)) {
        (Some(f), Some(t), Some(v)) => Some(
            RawTxView {
                chain_id: chain_id as u64,
                hash,
                timestamp: timestamp as u64,
                from: f,
                to: t,
                value_wei: v,
                input_len: input_len as usize,
                success: status != 0,
                internals: seq![],
            },
        ),
        _ => None,
    }
}

/// The record of a stored transaction row (see [`raw_tx_row_spec`]).
pub fn raw_tx_from_row(
    chain_id: i64,
    hash: String,
    timestamp: i64,
    from: &str,
    to: Option<&str>,
    value: &str,
    input_len: i64,
    status: i64,
) -> (r: Option<RawTx>)
    ensures
        match raw_tx_row_spec(chain_id, hash@, timestamp, from@, opt_str_view(to), value@, input_len, status) {
            Some(v) => r matches Some(t) && t@ == v,
            None => r is None,
        },
{
    let f = match parse_address(from) {
        Some(a) => a,
        None => return None,
    };
    let t = match to {
        None => None,
        Some(text) => match parse_address(text) {
            Some(a) => Some(a),
            None => return None,
        },
    };
    let v = match parse_u256(value) {
        Some(x) => x,
        None => return None,
    };
    let r = RawTx {
        chain_id: chain_id as u64,
        hash,
        timestamp: timestamp as u64,
        from: f,
        to: t,
        value_wei: v,
        input_len: input_len as usize,
        success: status != 0,
        internals: Vec::new(),
    };
    assert(r@.internals =~= Seq::<crate::decode::erc20::InternalTx>::empty());
    Some(r)
}

pub open spec fn opt_str_view(o: Option<&str>) -> Option<Seq<char>> {
    match o {
        Some(s) => Some(s@),
        None => None,
    }
}

/// A stored transfer row as a record: `None` if an address or the amount
/// does not parse; the decimals are read as `decimals as u32`.
pub open spec fn raw_transfer_row_spec(
    token: Seq<char>,
    from: Seq<char>,
    to: Seq<char>,
    amount: Seq<char>,
    symbol: Seq<char>,
    decimals: i64,
) -> Option<TransferView> {
    match (address_parse_spec(token), address_parse_spec(from), address_parse_spec(to), u256_parse_spec(amount)) {
        (Some(k), Some(f), Some(t), Some(a)) => Some(
            TransferView { token: k, from: f, to: t, amount: a, symbol, decimals: decimals as u32 },
        ),
        _ => None,
    }
}

/// The record of a stored transfer row (see [`raw_transfer_row_spec`]).
pub fn raw_transfer_from_row(
    token: &str,
    from: &str,
    to: &str,
    amount: &str,
    symbol: String,
    decimals: i64,
) -> (r: Option<RawTransfer>)
    ensures
        match raw_transfer_row_spec(token@, from@, to@, amount@, symbol@, decimals) {
            Some(v) => r matches Some(t) && t@ == v,
            None => r is None,
        },
{
    let k = match parse_address(token) {
        Some(a) => a,
        None => return None,
    };
    let f = match parse_address(from) {
        Some(a) => a,
        None => return None,
    };
    let t = match parse_address(to) {
        Some(a) => a,
        None => return None,
    };
    let a = match parse_u256(amount) {
        Some(x) => x,
        None => return None,
    };
    Some(RawTransfer { token: k, from: f, to: t, amount: a, symbol, decimals: decimals as u32 })
}

// ---------------------------------------------------------------------------
// Staking cache
// ---------------------------------------------------------------------------

/// Age of a snapshot in seconds; a timestamp in the future has age 0.
pub open spec fn snapshot_age(now: i64, fetched_at: i64) -> int {
    if now - fetched_at < 0 {
        0
    } else {
        now - fetched_at
    }
}

/// The cached staking row, if a cache is to be used at all (`max_age_secs`
/// is `Some`) and the row is not older than that; stored negatives read as
/// 0. With `None` (a refresh) the cache is never used.
pub fn cached_snapshot(count: i64, total: i64, fetched_at: i64, now: i64, max_age_secs: Option<u64>) -> (r: Option<
    CachedStakingSummary,
>)
    requires
        max_age_secs is Some ==> i64::MIN <= now - fetched_at <= i64::MAX,
    ensures
        max_age_secs is None ==> r is None,
        max_age_secs matches Some(m) && snapshot_age(now, fetched_at) > m ==> r is None,
        max_age_secs matches Some(m) && snapshot_age(now, fetched_at) <= m ==> (r matches Some(c)
            && c.validator_count == (if count < 0 { 0 } else { count as int })
            && c.total_balance_gwei == (if total < 0 { 0 } else { total as int })),
{
    let max_age_secs = match max_age_secs {
        Some(m) => m,
        None => return None,
    };
    let diff: i64 = now - fetched_at;
    let age: u64 = if diff < 0 {
        0
    } else {
        diff as u64
    };
    if age > max_age_secs {
        return None;
    }
    Some(
        CachedStakingSummary {
            validator_count: if count < 0 {
                0
            } else {
                count as u64
            },
            total_balance_gwei: if total < 0 {
                0
            } else {
                total as u64
            },
        },
    )
}

// ---------------------------------------------------------------------------
// History
// ---------------------------------------------------------------------------

pub open spec fn touches(tx: RawTx, transfers: Seq<RawTransfer>, a: Address) -> bool {
    ||| tx.from == a
    ||| tx.to == Some(a)
    ||| exists|k: int| #![trigger transfers[k]] 0 <= k < transfers.len() && (transfers[k].from == a || transfers[k].to == a)
}

/// The first owned address, in the order given, that the transaction or one
/// of its transfers involves.
pub open spec fn pick_us_spec(addresses: Seq<Address>, tx: RawTx, transfers: Seq<RawTransfer>) -> Option<Address>
    decreases addresses.len(),
{
    if addresses.len() == 0 {
        None
    } else if touches(tx, transfers, addresses[0]) {
        Some(addresses[0])
    } else {
        pick_us_spec(addresses.drop_first(), tx, transfers)
    }
}

fn transfers_touch(transfers: &[RawTransfer], a: Address) -> (b: bool)
    ensures
        b == exists|k: int| #![trigger transfers@[k]] 0 <= k < transfers@.len() && (transfers@[k].from == a || transfers@[k].to == a),
{
    let mut k: usize = 0;
    while k < transfers.len()
        invariant
            k <= transfers@.len(),
            forall|q: int| #![trigger transfers@[q]] 0 <= q < k ==> !(transfers@[q].from == a || transfers@[q].to == a),
        decreases transfers@.len() - k,
    {
        if transfers[k].from == a || transfers[k].to == a {
            assert(transfers@[k as int].from == a || transfers@[k as int].to == a);
            return true;
        }
        assert(!(transfers@[k as int].from == a || transfers@[k as int].to == a));
        k = k + 1;
    }
    false
}

pub fn pick_us(addresses: &[Address], tx: &RawTx, transfers: &[RawTransfer]) -> (r: Option<Address>)
    ensures
        r == pick_us_spec(addresses@, *tx, transfers@),
{
    assert(addresses@.skip(0) =~= addresses@);
    let mut i: usize = 0;
    while i < addresses.len()
        invariant
            i <= addresses@.len(),
            pick_us_spec(addresses@.skip(i as int), *tx, transfers@) == pick_us_spec(addresses@, *tx, transfers@),
        decreases addresses@.len() - i,
    {
        let a = addresses[i];
        assert(addresses@.skip(i as int)[0] == a);
        let to_us = match tx.to {
            Some(t) => t == a,
            None => false,
        };
        if tx.from == a || to_us || transfers_touch(transfers, a) {
            return Some(a);
        }
        assert(addresses@.skip(i as int).drop_first() =~= addresses@.skip(i + 1));
        i = i + 1;
    }
    None
}

// ---------------------------------------------------------------------------
// Unknown counterparties
// ---------------------------------------------------------------------------

/// The order unknown counterparties are listed in: most interactions first,
/// then lower chain id first.
pub open spec fn ranks_before(a: UnknownCounterparty, b: UnknownCounterparty) -> bool {
    a.interactions > b.interactions || (a.interactions == b.interactions && a.chain_id < b.chain_id)
}

pub open spec fn ranks_sorted(s: Seq<UnknownCounterparty>) -> bool {
    forall|i: int, j: int| 0 <= i < j < s.len() ==> !ranks_before(#[trigger] s[j], #[trigger] s[i])
}

/// Whether `text` is the stored form of one of the owned addresses.
pub open spec fn is_owned_text(owned: Seq<Address>, text: Seq<char>) -> bool {
    exists|k: int| 0 <= k < owned.len() && address_hex(#[trigger] owned[k]) == text
}

/// The grouped `(chain id, counterparty, count)` rows kept as unknown
/// counterparties: not owned, and a valid address.
pub open spec fn unknown_rows_spec(rows: Seq<(u64, Seq<char>, u64)>, owned: Seq<Address>) -> Seq<UnknownCounterparty>
    decreases rows.len(),
{
    if rows.len() == 0 {
        seq![]
    } else {
        let rest = unknown_rows_spec(rows.drop_last(), owned);
        let (chain_id, text, count) = rows.last();
        if is_owned_text(owned, text) {
            rest
        } else {
            match address_parse_spec(text) {
                Some(a) => rest.push(UnknownCounterparty { chain_id, address: a, interactions: count }),
                None => rest,
            }
        }
    }
}

pub open spec fn rows_view(rows: Seq<(u64, String, u64)>) -> Seq<(u64, Seq<char>, u64)> {
    rows.map_values(|r: (u64, String, u64)| (r.0, r.1@, r.2))
}

fn owned_text(owned: &Vec<String>, text: &str, Ghost(addrs): Ghost<Seq<Address>>) -> (b: bool)
    requires
        owned@.len() == addrs.len(),
        forall|k: int| 0 <= k < addrs.len() ==> #[trigger] owned@[k]@ == address_hex(addrs[k]),
    ensures
        b == is_owned_text(addrs, text@),
{
    let mut k: usize = 0;
    while k < owned.len()
        invariant
            k <= owned@.len(),
            owned@.len() == addrs.len(),
            forall|q: int| 0 <= q < addrs.len() ==> #[trigger] owned@[q]@ == address_hex(addrs[q]),
            forall|q: int| 0 <= q < k ==> address_hex(#[trigger] addrs[q]) != text@,
        decreases owned@.len() - k,
    {
        if str_eq(owned[k].as_str(), text) {
            assert(address_hex(addrs[k as int]) == text@);
            return true;
        }
        k = k + 1;
    }
    false
}

/// What the listing order compares: interactions, then chain id.
pub open spec fn rank_key(u: UnknownCounterparty) -> (u64, u64) {
    (u.interactions, u.chain_id)
}

pub open spec fn rank_key_is(k: (u64, u64)) -> spec_fn(UnknownCounterparty) -> bool {
    |u: UnknownCounterparty| rank_key(u) == k
}

/// The entries of `s` with rank key `k`, in their order in `s`.
pub open spec fn rank_class(s: Seq<UnknownCounterparty>, k: (u64, u64)) -> Seq<UnknownCounterparty> {
    s.filter(rank_key_is(k))
}

/// Inserts `u` after every entry that does not rank after it.
fn insert_ranked(out: &mut Vec<UnknownCounterparty>, u: UnknownCounterparty)
    requires
        ranks_sorted(old(out)@),
    ensures
        ranks_sorted(final(out)@),
        final(out)@.to_multiset() == old(out)@.to_multiset().insert(u),
        forall|k: (u64, u64)| #[trigger] rank_class(final(out)@, k) == if rank_key(u) == k {
            rank_class(old(out)@, k).push(u)
        } else {
            rank_class(old(out)@, k)
        },
{
    let n = out.len();
    let mut p: usize = 0;
    while p < n && !u.rank_key_before(out[p])
        invariant
            p <= n == out@.len(),
            ranks_sorted(out@),
            forall|q: int| 0 <= q < p ==> !ranks_before(u, #[trigger] out@[q]),
        decreases n - p,
    {
        p = p + 1;
    }
    let ghost prev = out@;
    proof {
        assert forall|q: int| p <= q < prev.len() implies rank_key(#[trigger] prev[q]) != rank_key(u) by {
            if q > p {
                assert(!ranks_before(prev[q], prev[p as int]));
            }
        }
        assert forall|k: (u64, u64)| #[trigger] rank_class(prev.insert(p as int, u), k) == if rank_key(u) == k {
            rank_class(prev, k).push(u)
        } else {
            rank_class(prev, k)
        } by {
            assert forall|q: int| p <= q < prev.len() implies !rank_key_is(k)(#[trigger] prev[q]) || !rank_key_is(k)(u) by {
                assert(rank_key(prev[q]) != rank_key(u));
            }
            lemma_filter_insert(prev, p as int, u, rank_key_is(k));
        }
    }
    out.insert(p, u);
    assert forall|i: int, j: int| 0 <= i < j < out@.len() implies !ranks_before(#[trigger] out@[j], #[trigger] out@[i]) by {
        if j < p {
            assert(out@[i] == prev[i] && out@[j] == prev[j]);
        } else if j == p {
            assert(out@[i] == prev[i]);
        } else if i == p {
            assert(out@[j] == prev[j - 1]);
            assert(ranks_before(u, prev[p as int]));
            assert(!ranks_before(prev[j - 1], prev[p as int]));
        } else if i < p {
            assert(out@[i] == prev[i] && out@[j] == prev[j - 1]);
        } else {
            assert(out@[i] == prev[i - 1] && out@[j] == prev[j - 1]);
        }
    }
}

impl UnknownCounterparty {
    pub(crate) fn rank_key_before(self, other: Self) -> (b: bool)
        ensures
            b == ranks_before(self, other),
    {
        self.interactions > other.interactions || (self.interactions == other.interactions && self.chain_id < other.chain_id)
    }
}

/// The unknown counterparties from grouped rows: owned addresses and
/// unparsable text left out, most interactions first, then by chain id.
pub fn unknown_counterparties_from_rows(rows: &[(u64, String, u64)], owned: &[Address]) -> (r: Vec<UnknownCounterparty>)
    ensures
        ranks_sorted(r@),
        r@.to_multiset() == unknown_rows_spec(rows_view(rows@), owned@).to_multiset(),
        forall|k: (u64, u64)| #[trigger] rank_class(r@, k) == rank_class(unknown_rows_spec(rows_view(rows@), owned@), k),
{
    let mut owned_texts: Vec<String> = Vec::new();
    let mut k: usize = 0;
    while k < owned.len()
        invariant
            k <= owned@.len(),
            owned_texts@.len() == k,
            forall|q: int| 0 <= q < k ==> #[trigger] owned_texts@[q]@ == address_hex(owned@[q]),
        decreases owned@.len() - k,
    {
        owned_texts.push(addr_to_db(owned[k]));
        k = k + 1;
    }
    let ghost rv = rows_view(rows@);
    let mut out: Vec<UnknownCounterparty> = Vec::new();
    let mut i: usize = 0;
    while i < rows.len()
        invariant
            i <= rows@.len(),
            rv == rows_view(rows@),
            owned_texts@.len() == owned@.len(),
            forall|q: int| 0 <= q < owned@.len() ==> #[trigger] owned_texts@[q]@ == address_hex(owned@[q]),
            ranks_sorted(out@),
            out@.to_multiset() == unknown_rows_spec(rv.take(i as int), owned@).to_multiset(),
            forall|k: (u64, u64)| #[trigger] rank_class(out@, k) == rank_class(unknown_rows_spec(rv.take(i as int), owned@), k),
        decreases rows@.len() - i,
    {
        assert(rv.take(i + 1).drop_last() =~= rv.take(i as int));
        assert(rv.take(i + 1).last() == rv[i as int]);
        let ghost done = unknown_rows_spec(rv.take(i as int), owned@);
        let text = rows[i].1.as_str();
        if !owned_text(&owned_texts, text, Ghost(owned@)) {
            match parse_address(text) {
                Some(a) => {
                    let u = UnknownCounterparty { chain_id: rows[i].0, address: a, interactions: rows[i].2 };
                    insert_ranked(&mut out, u);
                    proof {
                        assert(unknown_rows_spec(rv.take(i + 1), owned@) == done.push(u));
                        assert forall|k: (u64, u64)| #[trigger] rank_class(out@, k) == rank_class(done.push(u), k) by {
                            lemma_filter_push(done, u, rank_key_is(k));
                        }
                    }
                },
                None => {},
            }
        }
        i = i + 1;
    }
    assert(rv.take(rows@.len() as int) =~= rv);
    out
}


// ---------------------------------------------------------------------------
// History order
// ---------------------------------------------------------------------------

/// History order: by timestamp, then chain id, then hash.
pub open spec fn history_before(a: DecodedView, b: DecodedView) -> bool {
    ||| a.timestamp < b.timestamp
    ||| (a.timestamp == b.timestamp && a.chain_id < b.chain_id)
    ||| (a.timestamp == b.timestamp && a.chain_id == b.chain_id && seq_lt(a.hash, b.hash))
}

pub open spec fn history_sorted(s: Seq<DecodedView>) -> bool {
    forall|i: int, j: int| 0 <= i < j < s.len() ==> !history_before(#[trigger] s[j], #[trigger] s[i])
}

proof fn lemma_history_order(a: DecodedView, b: DecodedView, c: DecodedView)
    ensures
        history_before(a, b) && history_before(b, c) ==> history_before(a, c),
        !(history_before(a, b) && history_before(b, a)),
{
    lemma_seq_lt_total(a.hash, b.hash);
    if history_before(a, b) && history_before(b, c) && a.timestamp == c.timestamp && a.chain_id == c.chain_id {
        lemma_seq_lt_trans(a.hash, b.hash, c.hash);
    }
}

fn history_key_before(a: &DecodedTx, b: &DecodedTx) -> (r: bool)
    ensures
        r == history_before(a@, b@),
{
    if a.timestamp != b.timestamp {
        return a.timestamp < b.timestamp;
    }
    if a.chain_id != b.chain_id {
        return a.chain_id < b.chain_id;
    }
    chars_lt(&chars_of(a.hash.as_str()), &chars_of(b.hash.as_str()))
}

pub open spec fn decoded_views(v: Seq<DecodedTx>) -> Seq<DecodedView> {
    v.map_values(|d: DecodedTx| d@)
}

/// What the history order compares: timestamp, chain id, hash.
pub open spec fn history_key(d: DecodedView) -> (u64, u64, Seq<char>) {
    (d.timestamp, d.chain_id, d.hash)
}

pub open spec fn history_key_is(k: (u64, u64, Seq<char>)) -> spec_fn(DecodedView) -> bool {
    |d: DecodedView| history_key(d) == k
}

/// The entries of `s` with history key `k`, in their order in `s`.
pub open spec fn history_class(s: Seq<DecodedView>, k: (u64, u64, Seq<char>)) -> Seq<DecodedView> {
    s.filter(history_key_is(k))
}

fn insert_history(out: &mut Vec<DecodedTx>, d: DecodedTx)
    requires
        history_sorted(decoded_views(old(out)@)),
    ensures
        history_sorted(decoded_views(final(out)@)),
        decoded_views(final(out)@).to_multiset() == decoded_views(old(out)@).to_multiset().insert(d@),
        forall|k: (u64, u64, Seq<char>)| #[trigger] history_class(decoded_views(final(out)@), k) == if history_key(d@) == k {
            history_class(decoded_views(old(out)@), k).push(d@)
        } else {
            history_class(decoded_views(old(out)@), k)
        },
{
    let ghost prev = decoded_views(out@);
    let n = out.len();
    let mut p: usize = 0;
    while p < n && !history_key_before(&d, &out[p])
        invariant
            p <= n == out@.len(),
            prev == decoded_views(out@),
            forall|q: int| 0 <= q < p ==> !history_before(d@, #[trigger] prev[q]),
        decreases n - p,
    {
        p = p + 1;
    }
    let ghost u = d@;
    proof {
        assert forall|q: int| p <= q < prev.len() implies history_key(#[trigger] prev[q]) != history_key(u) by {
            lemma_seq_lt_irrefl(u.hash);
            if q > p {
                assert(!history_before(prev[q], prev[p as int]));
            }
        }
        assert forall|k: (u64, u64, Seq<char>)| #[trigger] history_class(prev.insert(p as int, u), k) == if history_key(u) == k {
            history_class(prev, k).push(u)
        } else {
            history_class(prev, k)
        } by {
            assert forall|q: int| p <= q < prev.len() implies !history_key_is(k)(#[trigger] prev[q]) || !history_key_is(k)(u) by {
                assert(history_key(prev[q]) != history_key(u));
            }
            lemma_filter_insert(prev, p as int, u, history_key_is(k));
        }
    }
    out.insert(p, d);
    let ghost r = decoded_views(out@);
    assert(r =~= prev.insert(p as int, u));
    assert forall|i: int, j: int| 0 <= i < j < r.len() implies !history_before(#[trigger] r[j], #[trigger] r[i]) by {
        if j < p {
            assert(r[i] == prev[i] && r[j] == prev[j]);
        } else if j == p {
            assert(r[i] == prev[i]);
        } else if i == p {
            assert(r[j] == prev[j - 1]);
            assert(history_before(u, prev[p as int]));
            lemma_history_order(prev[j - 1], u, prev[p as int]);
            if j - 1 > p {
                assert(!history_before(prev[j - 1], prev[p as int]));
            }
        } else if i < p {
            assert(r[i] == prev[i] && r[j] == prev[j - 1]);
        } else {
            assert(r[i] == prev[i - 1] && r[j] == prev[j - 1]);
        }
    }
}

/// The decoded transactions in history order (by timestamp, then chain id,
/// then hash), nothing added or lost; entries with equal keys keep their
/// order.
pub fn sort_history(decoded: Vec<DecodedTx>) -> (r: Vec<DecodedTx>)
    ensures
        history_sorted(decoded_views(r@)),
        decoded_views(r@).to_multiset() == decoded_views(decoded@).to_multiset(),
        forall|k: (u64, u64, Seq<char>)| #[trigger] history_class(decoded_views(r@), k) == history_class(
            decoded_views(decoded@),
            k,
        ),
{
    let ghost all = decoded_views(decoded@);
    let n = decoded.len();
    let mut rest = decoded;
    let mut out: Vec<DecodedTx> = Vec::new();
    proof {
        broadcast use vstd::seq_lib::to_multiset_len, vstd::multiset::lemma_multiset_empty_len, vstd::multiset::group_multiset_axioms;
        assert(decoded_views(out@) =~= Seq::<DecodedView>::empty());
        assert(decoded_views(out@).to_multiset().len() == 0);
        assert(decoded_views(out@).to_multiset() =~= vstd::multiset::Multiset::<DecodedView>::empty());
        assert(decoded_views(rest@) == all);
        assert(decoded_views(out@).to_multiset().add(decoded_views(rest@).to_multiset()) =~= all.to_multiset());
        assert(all.take(0) =~= decoded_views(out@));
    }
    while rest.len() > 0
        invariant
            n == all.len(),
            rest@.len() <= n,
            decoded_views(rest@) == all.skip(n - rest@.len()),
            history_sorted(decoded_views(out@)),
            decoded_views(out@).to_multiset().add(decoded_views(rest@).to_multiset()) == all.to_multiset(),
            forall|k: (u64, u64, Seq<char>)| #[trigger] history_class(decoded_views(out@), k) == history_class(
                all.take(n - rest@.len()),
                k,
            ),
        decreases rest@.len(),
    {
        let ghost before = decoded_views(rest@);
        let ghost done = all.take(n - rest@.len());
        let ghost outv = decoded_views(out@);
        let ghost m: int = n - rest@.len();
        let d = rest.remove(0);
        assert(before =~= seq![d@] + decoded_views(rest@));
        assert(d@ == before[0] && before[0] == all[m]);
        assert(all.take(m + 1) =~= done.push(d@));
        assert(decoded_views(rest@) =~= before.drop_first());
        assert(before.drop_first() =~= all.skip(m + 1));
        let ghost mid = decoded_views(out@).to_multiset();
        insert_history(&mut out, d);
        proof {
            broadcast use vstd::multiset::group_multiset_axioms;
            assert(before.to_multiset() =~= decoded_views(rest@).to_multiset().insert(d@)) by {
                broadcast use vstd::seq_lib::group_to_multiset_ensures;
                vstd::seq_lib::lemma_multiset_commutative(seq![d@], decoded_views(rest@));
                vstd::seq_lib::lemma_multiset_commutative(decoded_views(rest@), seq![d@]);
                assert(decoded_views(rest@) + seq![d@] =~= decoded_views(rest@).push(d@));
            }
            assert(decoded_views(out@).to_multiset().add(decoded_views(rest@).to_multiset()) =~= mid.add(before.to_multiset()));
            assert forall|k: (u64, u64, Seq<char>)| #[trigger] history_class(decoded_views(out@), k) == history_class(
                all.take(n - rest@.len()),
                k,
            ) by {
                lemma_filter_push(done, d@, history_key_is(k));
                assert(history_class(outv, k) == history_class(done, k));
            }
        }
    }
    proof {
        broadcast use vstd::seq_lib::to_multiset_len, vstd::multiset::lemma_multiset_empty_len, vstd::multiset::group_multiset_axioms;
        assert(decoded_views(rest@) =~= Seq::<DecodedView>::empty());
        assert(decoded_views(rest@).to_multiset() =~= vstd::multiset::Multiset::<DecodedView>::empty());
        assert(decoded_views(out@).to_multiset().add(decoded_views(rest@).to_multiset()) =~= decoded_views(out@).to_multiset());
        assert(all.take(n as int) =~= all);
    }
    out
}

} // verus!
