use lportfolio::decode::{Action, DecodedTx, Direction, ProtocolKind};
use lportfolio::primitives::{Address, U256};
use lportfolio::render::{
    display_address, format_action, format_eth_amount, format_token_amount, format_unix_utc, history_rows, short_addr,
    short_hash, showable_tx, unix_to_ymdhms_utc,
};
use lportfolio::rpc::{check_chain_id, format_eth};
use lportfolio::chain::Chain;

fn addr(s: &str) -> Address {
    s.parse::<Address>().unwrap()
}

#[test]
fn unix_epoch_renders_correctly() {
    assert_eq!(format_unix_utc(0), "1970-01-01 00:00:00");
}

#[test]
fn known_timestamp_renders_correctly() {
    assert_eq!(format_unix_utc(1_704_067_200), "2024-01-01 00:00:00");
}

#[test]
fn token_amount_formatting() {
    assert_eq!(format_token_amount(U256::from_u64(1_000_000), 6), "1");
    assert_eq!(format_token_amount(U256::from_u64(1_500_000), 6), "1.5");
    assert_eq!(format_token_amount(U256::from_u64(123_456), 6), "0.123456");
}

#[test]
fn eth_amount_formatting() {
    let one = U256::from_u64(1_000_000_000_000_000_000);
    assert_eq!(format_eth_amount(one), "1");
    assert_eq!(format_eth_amount(U256::zero()), "0");
}

#[test]
fn short_hash_truncation() {
    assert_eq!(short_hash("0x1234"), "0x1234");
    assert_eq!(short_hash("0x1234567890abcdef1234567890abcdef"), "0x1234…cdef");
}

#[test]
fn civil_dates_of_leap_years_and_ends_of_month() {
    assert_eq!(unix_to_ymdhms_utc(951_782_400), (2000, 2, 29, 0, 0, 0));
    assert_eq!(unix_to_ymdhms_utc(1_709_251_199), (2024, 2, 29, 23, 59, 59));
    assert_eq!(format_unix_utc(4_102_444_800), "2100-01-01 00:00:00");
    assert_eq!(format_unix_utc(1_700_000_000), "2023-11-14 22:13:20");
}

#[test]
fn token_amounts_with_few_or_many_decimals() {
    assert_eq!(format_token_amount(U256::from_u64(12345), 0), "12345");
    assert_eq!(format_token_amount(U256::from_u64(5), 2), "0.05");
    assert_eq!(format_token_amount(U256::from_u64(1_234_567_890_123_456_789), 18), "1.234567");
    assert_eq!(format_eth_amount(U256::from_u64(1)), "0");
}

#[test]
fn format_eth_zero() {
    assert_eq!(format_eth(U256::zero()), "0 ETH");
}

#[test]
fn format_eth_one() {
    let one_eth = U256::from_u64(1_000_000_000_000_000_000);
    assert_eq!(format_eth(one_eth), "1 ETH");
}

#[test]
fn format_eth_fractional() {
    let half_eth = U256::from_u64(500_000_000_000_000_000);
    assert_eq!(format_eth(half_eth), "0.5 ETH");
}

#[test]
fn format_eth_truncates_to_six_decimals() {
    let v = U256::from_u64(1_234_567_890_123_000_000);
    assert_eq!(format_eth(v), "1.234567 ETH");
}

#[test]
fn format_eth_below_six_decimals_shows_zero() {
    assert_eq!(format_eth(U256::from_u64(1)), "0 ETH");
}

#[test]
fn format_eth_of_large_values() {
    let v = U256 { w0: 0, w1: 1, w2: 0, w3: 0 };
    assert_eq!(format_eth(v), "18.446744 ETH");
}

#[test]
fn chain_id_check_reports_mismatch() {
    assert_eq!(check_chain_id(Chain::Mainnet, 1), Ok(()));
    assert_eq!(
        check_chain_id(Chain::Base, 1),
        Err("RPC for base returned chain id 1, expected 8453".to_string())
    );
}

#[test]
fn display_address_prefers_alias_then_label() {
    let a = addr("0x00000000000000000000000000000000000000aa");
    let aliases = vec![(a, "hot".to_string())];
    let labels = vec![(1u64, a, "Pool".to_string())];
    assert_eq!(display_address(a, 1, &aliases, &labels, &[]), "hot");
    assert_eq!(display_address(a, 1, &[], &labels, &[]), "Pool");
    assert_eq!(display_address(a, 10, &[], &labels, &[]), "0x0000…00aa");
    let ens = vec![(a, "vitalik.eth".to_string())];
    assert_eq!(display_address(a, 10, &[], &labels, &ens), "vitalik.eth");
    assert_eq!(display_address(a, 1, &[], &labels, &ens), "Pool");
    assert_eq!(display_address(a, 1, &aliases, &labels, &ens), "hot");
    assert_eq!(short_addr(addr("0xd8dA6BF26964aF9D7eEd9e03E53415D37aA96045")), "0xd8da…6045");
}

#[test]
fn action_lines() {
    let cp = addr("0x00000000000000000000000000000000000000aa");
    let sent = Action::NativeTransfer { direction: Direction::Out, counterparty: cp, amount_wei: U256::from_u64(1_500_000_000_000_000_000) };
    assert_eq!(format_action(&sent, 1, &[], &[], &[]), "Sent 1.5 ETH to 0x0000…00aa");
    let got = Action::TokenTransfer {
        direction: Direction::In,
        counterparty: cp,
        token: cp,
        symbol: String::new(),
        decimals: 6,
        amount: U256::from_u64(2_000_000),
    };
    assert_eq!(format_action(&got, 1, &[(cp, "bob".to_string())], &[], &[]), "Received 2 0x0000…00aa from bob");
    let call = Action::ContractCall { contract: cp };
    assert_eq!(format_action(&call, 1, &[], &[(1, cp, "Router".to_string())], &[]), "Called contract Router");
    let proto = Action::Protocol { protocol: "Lido", kind: ProtocolKind::Stake, contract: cp, sent: vec![], received: vec![] };
    assert_eq!(format_action(&proto, 1, &[], &[], &[]), "Stake via Lido");
}

#[test]
fn history_rows_per_action_and_placeholder() {
    let cp = addr("0x00000000000000000000000000000000000000aa");
    let d1 = DecodedTx { chain_id: 1, hash: "0xabc".to_string(), timestamp: 0, success: false, actions: vec![] };
    let d2 = DecodedTx {
        chain_id: 7,
        hash: "0x1234567890abcdef1234567890abcdef".to_string(),
        timestamp: 1_704_067_200,
        success: false,
        actions: vec![Action::ContractCall { contract: cp }, Action::ContractCall { contract: cp }],
    };
    let rows = history_rows(&[d1, d2], &[], &[], &[]);
    assert_eq!(rows.len(), 3);
    assert_eq!(rows[0].time, "1970-01-01 00:00:00");
    assert_eq!(rows[0].chain, "mainnet");
    assert_eq!(rows[0].tx, "0xabc");
    assert_eq!(rows[0].action, "(reverted)");
    assert_eq!(rows[1].chain, "7");
    assert_eq!(rows[1].tx, "0x1234…cdef");
    assert_eq!(rows[2].action, "(reverted) Called contract 0x0000…00aa");
}

#[test]
fn leap_days_render_as_valid_dates() {
    assert_eq!(format_unix_utc(1709164800), "2024-02-29 00:00:00");
    assert_eq!(format_unix_utc(1709251199), "2024-02-29 23:59:59");
    assert_eq!(format_unix_utc(1677628800), "2023-03-01 00:00:00");
    assert_eq!(format_unix_utc(951782400), "2000-02-29 00:00:00");
    assert_eq!(unix_to_ymdhms_utc(4107542400), (2100, 3, 1, 0, 0, 0));
}

#[test]
fn short_hash_cuts_by_bytes() {
    assert_eq!(short_hash("ééé0123456789"), "ééé…6789");
    assert_eq!(short_hash("éééééé"), "éééééé");
}

#[test]
fn hashes_cut_inside_a_character_are_not_shown() {
    let d = |h: &str| DecodedTx { chain_id: 1, hash: h.to_string(), timestamp: 0, success: true, actions: vec![] };
    assert!(showable_tx(&d("0x1234567890abcdef")));
    assert!(showable_tx(&d("ééé0123456789")));
    assert!(!showable_tx(&d("aaaaaé0123456789")));
}
