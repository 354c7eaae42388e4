use lportfolio::db::{ens_pending, next_watermark, raw_transfer_from_row, raw_tx_from_row, transfer_row, tx_row};
use lportfolio::explorer::{EtherscanTokenTx, EtherscanTx};
use lportfolio::rpc::parse_quantity;
use lportfolio::cli::{highest_block_cell, history_labels, owned_addresses, select_addresses, select_chains, unlabelled};
use lportfolio::chain::Chain;
use lportfolio::config::{ChainConfig, ChainMap};
use lportfolio::db::{
    addr_to_db, cached_snapshot, highest_block, input_len, last_synced_from, log_indices, pick_us, sort_history,
    sync_summary, tx_success, unknown_counterparties_from_rows, UnknownCounterparty,
};
use lportfolio::decode::{DecodedTx, KnownContract, RawTransfer, RawTx};
use lportfolio::explorer::{
    account_url, answer_kind, push_form_encoded, is_rate_limited, next_page_start, parse_u64_field, parse_u64_field_or_zero, rate_limit_retry,
    throttle_wait_ms, AnswerKind, Explorer, ExplorerError,
};
use lportfolio::primitives::{Address, U256};
use lportfolio::holdings::staking_max_age_secs;
use lportfolio::sync::sync_start;

fn addr(s: &str) -> Address {
    s.parse::<Address>().unwrap()
}

#[test]
fn rejects_missing_api_key() {
    assert!(Explorer::new(String::new()).is_err());
    assert!(Explorer::new("   ".to_string()).is_err());
    assert!(matches!(Explorer::new(String::new()), Err(ExplorerError::MissingApiKey)));
    assert_eq!(Explorer::new("KEY".to_string()).unwrap().api_key(), "KEY");
}

#[test]
fn explorer_answers() {
    assert!(is_rate_limited("0", "NOTOK", Some("Max calls per sec rate limit reached (5/sec)")));
    assert!(is_rate_limited("0", "rate limit reached", None));
    assert!(!is_rate_limited("1", "rate limit", None));
    assert!(!is_rate_limited("0", "NOTOK", Some("Invalid API Key")));
    assert_eq!(rate_limit_retry(true, 0), Some((1, 2_000)));
    assert_eq!(rate_limit_retry(true, 2), Some((3, 6_000)));
    assert_eq!(rate_limit_retry(true, 3), None);
    assert_eq!(rate_limit_retry(false, 0), None);
    assert_eq!(throttle_wait_ms(None), 0);
    assert_eq!(throttle_wait_ms(Some(100)), 250);
    assert_eq!(throttle_wait_ms(Some(400)), 0);
    assert_eq!(answer_kind("0", "No transactions found"), AnswerKind::NoTransactions);
    assert_eq!(answer_kind("0", "NOTOK"), AnswerKind::Refused);
    assert_eq!(answer_kind("1", "OK"), AnswerKind::Rows);
    assert_eq!(next_page_start(&[], 5), None);
    assert_eq!(next_page_start(&[7, 9], 5), None);
    let full: Vec<u64> = (0..10_000u64).map(|i| 100 + (i % 37)).collect();
    assert_eq!(next_page_start(&full, 5), Some(136));
    assert_eq!(parse_u64_field("12345"), Some(12345));
    assert_eq!(parse_u64_field(""), None);
    assert_eq!(parse_u64_field_or_zero(""), Some(0));
    assert_eq!(parse_u64_field_or_zero("6"), Some(6));
    assert_eq!(parse_u64_field_or_zero("x"), None);
}

#[test]
fn explorer_request_url() {
    let url = account_url(1, "txlist", "0xAbC0000000000000000000000000000000000001", 17, "K Y&=/");
    assert_eq!(
        url,
        "https://api.etherscan.io/v2/api?chainid=1&module=account&action=txlist\
         &address=0xAbC0000000000000000000000000000000000001&startblock=17&endblock=99999999\
         &page=1&offset=10000&sort=asc&apikey=K+Y%26%3D%2F"
    );
    let mut out: Vec<char> = vec!['x'];
    push_form_encoded(&mut out, "a-b_c.d*e~é");
    let s: String = out.into_iter().collect();
    assert_eq!(s, "xa-b_c.d*e%7E%C3%A9");
}

#[test]
fn sync_bookkeeping() {
    assert!(tx_success("0", "1"));
    assert!(tx_success("0", ""));
    assert!(!tx_success("1", "1"));
    assert!(!tx_success("0", "0"));
    assert_eq!(input_len("0x"), 0);
    assert_eq!(input_len("0xa9059cbb"), 4);
    assert_eq!(input_len("abcd"), 2);
    let hashes: Vec<String> = ["0xa", "0xb", "0xa", "0xa"].iter().map(|s| s.to_string()).collect();
    assert_eq!(log_indices(&hashes), vec![0, 0, 1, 2]);
    assert_eq!(highest_block(&[]), None);
    assert_eq!(highest_block(&[3, 9, 4]), Some(9));
    let s = sync_summary(&[100, 110], &[105]);
    assert_eq!((s.tx_count, s.transfer_count, s.highest_block), (2, 1, 110));
    let e = sync_summary(&[], &[]);
    assert_eq!(e.highest_block, 0);
    assert_eq!(last_synced_from(None), 0);
    assert_eq!(last_synced_from(Some(-5)), 0);
    assert_eq!(last_synced_from(Some(42)), 42);
    assert_eq!(sync_start(41), 42);
    assert_eq!(sync_start(u64::MAX), u64::MAX);
    assert_eq!(highest_block_cell(0), "-");
    assert_eq!(highest_block_cell(1234), "1234");
    assert_eq!(addr_to_db(addr("0x00000000000000000000000000000000000000AB")), "0x00000000000000000000000000000000000000ab");
}

#[test]
fn staking_cache_freshness() {
    let c = cached_snapshot(2, 64, 1_000, 1_200, Some(300)).unwrap();
    assert_eq!((c.validator_count, c.total_balance_gwei), (2, 64));
    assert!(cached_snapshot(2, 64, 1_000, 1_301, Some(300)).is_none());
    assert!(cached_snapshot(2, 64, 1_000, 1_001, Some(0)).is_none());
    assert!(cached_snapshot(2, 64, 1_000, 1_000, Some(0)).is_some());
    let future = cached_snapshot(-1, -2, 2_000, 1_000, Some(0)).unwrap();
    assert_eq!((future.validator_count, future.total_balance_gwei), (0, 0));
}

#[test]
fn staking_refresh_bypasses_cache() {
    assert!(cached_snapshot(2, 64, 1_000, 1_000, staking_max_age_secs(true)).is_none());
    assert!(cached_snapshot(2, 64, 1_000, 1_000, staking_max_age_secs(false)).is_some());
    assert!(cached_snapshot(2, 64, i64::MIN, i64::MAX, None).is_none());
}

fn raw(from: Address, to: Option<Address>) -> RawTx {
    RawTx { chain_id: 1, hash: "0x1".into(), timestamp: 1, from, to, value_wei: U256::zero(), input_len: 0, success: true, internals: vec![] }
}

#[test]
fn picks_first_owned_party() {
    let a = addr("0x00000000000000000000000000000000000000a1");
    let b = addr("0x00000000000000000000000000000000000000b2");
    let x = addr("0x00000000000000000000000000000000000000c3");
    assert_eq!(pick_us(&[a, b], &raw(x, Some(b)), &[]), Some(b));
    assert_eq!(pick_us(&[a, b], &raw(x, None), &[]), None);
    let t = RawTransfer { token: x, from: x, to: a, amount: U256::from_u64(1), symbol: "T".into(), decimals: 0 };
    assert_eq!(pick_us(&[b, a], &raw(x, Some(x)), &[t]), Some(a));
}

#[test]
fn unknown_counterparties_sorted_and_filtered() {
    let owned = addr("0x00000000000000000000000000000000000000a1");
    let rows = vec![
        (1u64, "0x00000000000000000000000000000000000000b2".to_string(), 3u64),
        (10u64, "0x00000000000000000000000000000000000000c3".to_string(), 5u64),
        (1u64, "0x00000000000000000000000000000000000000a1".to_string(), 9u64),
        (1u64, "not an address".to_string(), 9u64),
        (1u64, "0x00000000000000000000000000000000000000c3".to_string(), 5u64),
    ];
    let out = unknown_counterparties_from_rows(&rows, &[owned]);
    assert_eq!(
        out,
        vec![
            UnknownCounterparty { chain_id: 1, address: addr("0x00000000000000000000000000000000000000c3"), interactions: 5 },
            UnknownCounterparty { chain_id: 10, address: addr("0x00000000000000000000000000000000000000c3"), interactions: 5 },
            UnknownCounterparty { chain_id: 1, address: addr("0x00000000000000000000000000000000000000b2"), interactions: 3 },
        ]
    );
    let labelled = vec![(10u64, addr("0x00000000000000000000000000000000000000c3"))];
    let known = vec![(1u64, addr("0x00000000000000000000000000000000000000b2"))];
    let left = unlabelled(&out, &labelled, &known, &vec![]);
    assert_eq!(left, vec![out[0]]);
    let resolved = vec![addr("0x00000000000000000000000000000000000000c3")];
    assert!(unlabelled(&out, &labelled, &known, &resolved).is_empty());
}

#[test]
fn unknown_counterparties_ties_keep_row_order() {
    let rows = vec![
        (1u64, "0x00000000000000000000000000000000000000f1".to_string(), 2u64),
        (1u64, "0x00000000000000000000000000000000000000e2".to_string(), 4u64),
        (1u64, "0x00000000000000000000000000000000000000d3".to_string(), 2u64),
    ];
    let out = unknown_counterparties_from_rows(&rows, &[]);
    let got: Vec<Address> = out.iter().map(|u| u.address).collect();
    assert_eq!(
        got,
        vec![
            addr("0x00000000000000000000000000000000000000e2"),
            addr("0x00000000000000000000000000000000000000f1"),
            addr("0x00000000000000000000000000000000000000d3"),
        ]
    );
}

#[test]
fn history_ties_keep_input_order() {
    let d = |ts: u64, ok: bool| DecodedTx { chain_id: 1, hash: "0xaa".to_string(), timestamp: ts, success: ok, actions: vec![] };
    let sorted = sort_history(vec![d(7, false), d(3, true), d(7, true)]);
    let got: Vec<(u64, bool)> = sorted.iter().map(|x| (x.timestamp, x.success)).collect();
    assert_eq!(got, vec![(3, true), (7, false), (7, true)]);
}

#[test]
fn history_sorted_by_time_chain_hash() {
    let d = |ts: u64, chain: u64, h: &str| DecodedTx { chain_id: chain, hash: h.to_string(), timestamp: ts, success: true, actions: vec![] };
    let sorted = sort_history(vec![d(5, 1, "0xb"), d(5, 1, "0xa"), d(1, 10, "0xz"), d(5, 0, "0xc")]);
    let keys: Vec<(u64, u64, String)> = sorted.iter().map(|x| (x.timestamp, x.chain_id, x.hash.clone())).collect();
    assert_eq!(
        keys,
        vec![(1, 10, "0xz".to_string()), (5, 0, "0xc".to_string()), (5, 1, "0xa".to_string()), (5, 1, "0xb".to_string())]
    );
}

#[test]
fn command_selections() {
    let mut chains = ChainMap::new();
    chains.insert(Chain::Base, ChainConfig { rpc_url: "b".to_string() });
    chains.insert(Chain::Mainnet, ChainConfig { rpc_url: "m".to_string() });
    assert_eq!(select_chains(&chains, None), vec![Chain::Mainnet, Chain::Base]);
    assert_eq!(select_chains(&chains, Some(Chain::Base)), vec![Chain::Base]);
    assert_eq!(select_chains(&chains, Some(Chain::Optimism)), Vec::<Chain>::new());
    let a = addr("0x00000000000000000000000000000000000000a1");
    let b = addr("0x00000000000000000000000000000000000000b2");
    let addresses = vec![("cold".to_string(), a), ("hot".to_string(), b)];
    assert_eq!(select_addresses(&addresses, Some("hot")), vec![("hot".to_string(), b)]);
    assert_eq!(select_addresses(&addresses, None).len(), 2);
    assert_eq!(owned_addresses(&addresses), vec![a, b]);
    let labels = history_labels(vec![(1, a, "mine".to_string())], &vec![KnownContract { chain_id: 1, address: b, label: "Pool" }]);
    assert_eq!(labels, vec![(1, a, "mine".to_string()), (1, b, "Pool".to_string())]);
}

#[test]
fn stored_rows_read_back_as_records() {
    let a = "0x00000000000000000000000000000000000000a1";
    let b = "0x00000000000000000000000000000000000000b2";
    let t = raw_tx_from_row(1, "0xh".to_string(), 1_700_000_000, a, Some(b), "1000000000000000000", 4, 1).unwrap();
    assert_eq!(t.from, addr(a));
    assert_eq!(t.to, Some(addr(b)));
    assert_eq!(t.value_wei, U256::from_u64(1_000_000_000_000_000_000));
    assert_eq!((t.chain_id, t.timestamp, t.input_len, t.success), (1, 1_700_000_000, 4, true));
    assert!(t.internals.is_empty());
    let none_to = raw_tx_from_row(10, "0xh".to_string(), 5, a, None, "0x1f", 0, 0).unwrap();
    assert_eq!((none_to.to, none_to.value_wei, none_to.success), (None, U256::from_u64(31), false));
    assert_eq!(raw_tx_from_row(1, "0xh".to_string(), 5, a, None, "1_000", 0, 1).unwrap().value_wei, U256::from_u64(1000));
    assert!(raw_tx_from_row(1, "0xh".to_string(), 5, a, None, "12a", 0, 1).is_none());
    assert!(raw_tx_from_row(1, "0xh".to_string(), 5, "0xnope", None, "1", 0, 1).is_none());
    assert!(raw_tx_from_row(1, "0xh".to_string(), 5, a, Some("x"), "1", 0, 1).is_none());
    let too_big = "115792089237316195423570985008687907853269984665640564039457584007913129639936";
    assert!(raw_tx_from_row(1, "0xh".to_string(), 5, a, None, too_big, 0, 1).is_none());
    let max = "115792089237316195423570985008687907853269984665640564039457584007913129639935";
    let m = raw_tx_from_row(1, "0xh".to_string(), 5, a, None, max, 0, 1).unwrap().value_wei;
    assert_eq!(m, U256 { w0: u64::MAX, w1: u64::MAX, w2: u64::MAX, w3: u64::MAX });
    assert_eq!(raw_tx_from_row(1, "0xh".to_string(), 5, a, None, "0b101", 0, 1).unwrap().value_wei, U256::from_u64(5));
    assert_eq!(raw_tx_from_row(1, "0xh".to_string(), 5, a, None, "0o17", 0, 1).unwrap().value_wei, U256::from_u64(15));
    let tr = raw_transfer_from_row(b, a, b, "250", "USDC".to_string(), 6).unwrap();
    assert_eq!((tr.token, tr.from, tr.to, tr.amount, tr.symbol.as_str(), tr.decimals), (addr(b), addr(a), addr(b), U256::from_u64(250), "USDC", 6));
    assert!(raw_transfer_from_row(b, a, b, "-1", "USDC".to_string(), 6).is_none());
}

#[test]
fn explorer_rows_as_stored() {
    let t = EtherscanTx {
        block_number: 7,
        timestamp: 8,
        hash: "0xh".to_string(),
        from: "0xABCdef0000000000000000000000000000000001".to_string(),
        to: String::new(),
        value: "0".to_string(),
        input: "0xdeadbeef".to_string(),
        receipt_status: "1".to_string(),
        is_error: "0".to_string(),
    };
    let r = tx_row(&t);
    assert_eq!(r.from, "0xabcdef0000000000000000000000000000000001");
    assert_eq!(r.to, None);
    assert_eq!((r.input_len, r.success), (4, true));
    let tt = EtherscanTokenTx {
        block_number: 7,
        timestamp: 8,
        hash: "0xh".to_string(),
        contract_address: "0xA0B8".to_string(),
        from: "0xAA".to_string(),
        to: "0xBB".to_string(),
        value: "1".to_string(),
        token_symbol: "USDC".to_string(),
        token_decimal: 6,
    };
    let tr = transfer_row(&tt);
    assert_eq!((tr.token.as_str(), tr.from.as_str(), tr.to.as_str()), ("0xa0b8", "0xaa", "0xbb"));
    assert_eq!(next_watermark(None, 5), 5);
    assert_eq!(next_watermark(Some(9), 5), 9);
    assert_eq!(next_watermark(Some(3), 5), 5);
    assert_eq!(next_watermark(Some(-4), 0), 0);
}

#[test]
fn ens_lookups_owed_once_each() {
    let a = addr("0x00000000000000000000000000000000000000a1");
    let b = addr("0x00000000000000000000000000000000000000b2");
    let c = addr("0x00000000000000000000000000000000000000c3");
    let cp = |chain_id: u64, address: Address| UnknownCounterparty { chain_id, address, interactions: 1 };
    let list = vec![cp(1, b), cp(10, b), cp(1, a), cp(1, c)];
    assert_eq!(ens_pending(&list, &[a]), vec![b, c]);
    assert_eq!(ens_pending(&list, &[]), vec![b, a, c]);
}

#[test]
fn rpc_quantities() {
    assert_eq!(parse_quantity("0x1a"), Some(U256::from_u64(26)));
    assert_eq!(parse_quantity("0x"), Some(U256::zero()));
    assert_eq!(parse_quantity("26"), None);
    assert_eq!(parse_quantity("0xzz"), None);
    assert_eq!(parse_quantity("0xa4b1").unwrap().to_u64(), Some(42161));
    assert_eq!(U256 { w0: 0, w1: 1, w2: 0, w3: 0 }.to_u64(), None);
}
