use lportfolio::csm::{cs_accounting, CsmBond};
use lportfolio::ens::{
    encode_reverse_name, is_contract_revert, reverse_step, universal_resolver, CallOutcome, EnsBatchStats,
    LookupResult, ReverseStep,
};
use lportfolio::primitives::{Address, U256};
use lportfolio::splits::{balance_token_id, is_supported_chain, native_token_sentinel, splits_warehouse, token_id_for};

fn addr(s: &str) -> Address {
    s.parse::<Address>().unwrap()
}

#[test]
fn cs_accounting_address_constant() {
    assert_eq!(cs_accounting().to_bytes().len(), 20);
}

#[test]
fn warehouse_address_constant_decodes() {
    assert_eq!(splits_warehouse().to_bytes().len(), 20);
    assert_eq!(native_token_sentinel().to_bytes().len(), 20);
}

#[test]
fn constants_match_their_hex() {
    assert_eq!(cs_accounting(), addr("0x4d72BFF1BeaC69925F8Bd12526a39BAAb069e5Da"));
    assert_eq!(splits_warehouse(), addr("0x8fb66F38cF86A3d5e8768f8F1754A24A6c661Fb8"));
    assert_eq!(native_token_sentinel(), addr("0xeeeeeEeEeEEEeeEEeEeeeeeeeeeeeeeeeeeeEEEE"));
    assert_eq!(universal_resolver(), addr("0xce01f8eee7E479C928F8919abD53E553a36CeF67"));
}

#[test]
fn token_id_lower_160_bits_match_address() {
    let a = addr("0x1234567890aBcDeF1234567890ABCDEF12345678");
    let id = token_id_for(a);
    let bytes = id.to_be_bytes();
    assert_eq!(bytes.len(), 32);
    assert_eq!(&bytes[..12], &[0u8; 12]);
    assert_eq!(&bytes[12..], a.to_bytes().as_slice());
}

#[test]
fn supported_chains_match_known_deployments() {
    assert!(is_supported_chain(1));
    assert!(is_supported_chain(10));
    assert!(is_supported_chain(8453));
    assert!(is_supported_chain(42161));
    assert!(!is_supported_chain(5));
}

#[test]
fn native_balance_asks_for_the_sentinel() {
    assert_eq!(balance_token_id(None), token_id_for(native_token_sentinel()));
    let a = addr("0x00000000000000000000000000000000000000ff");
    assert_eq!(balance_token_id(Some(a)), U256::from_u64(255));
}

#[test]
fn csm_bond_holds_operator_and_amount() {
    let b = CsmBond { operator_id: 42, bond_steth_wei: U256::from_u64(7) };
    assert_eq!(b.operator_id, 42);
    assert_eq!(b.bond_steth_wei, U256::from_u64(7));
}

#[test]
fn universal_resolver_constant_decodes() {
    assert_eq!(universal_resolver().to_bytes().len(), 20);
}

#[test]
fn encode_reverse_name_for_known_address() {
    let a = addr("0xd8dA6BF26964aF9D7eEd9e03E53415D37aA96045");
    let wire = encode_reverse_name(a);
    assert_eq!(wire.len(), 1 + 40 + 1 + 4 + 1 + 7 + 1);
    assert_eq!(wire[0], 40);
    assert_eq!(&wire[1..41], b"d8da6bf26964af9d7eed9e03e53415d37aa96045");
    assert_eq!(wire[41], 4);
    assert_eq!(&wire[42..46], b"addr");
    assert_eq!(wire[46], 7);
    assert_eq!(&wire[47..54], b"reverse");
    assert_eq!(wire[54], 0);
}

#[test]
fn encode_reverse_name_lowercases() {
    let mixed = addr("0xD8dA6BF26964aF9D7eEd9e03E53415D37aA96045");
    let wire = encode_reverse_name(mixed);
    assert!(wire[1..41].iter().all(|b| !b.is_ascii_uppercase()));
}

#[test]
fn reverse_steps() {
    assert!(matches!(reverse_step(0, CallOutcome::Returned("vitalik.eth".to_string())), ReverseStep::Found(n) if n == "vitalik.eth"));
    assert!(matches!(reverse_step(0, CallOutcome::Returned(String::new())), ReverseStep::Miss));
    assert!(matches!(reverse_step(2, CallOutcome::Failed("server returned: execution reverted: 0x".to_string())), ReverseStep::Miss));
    assert!(matches!(reverse_step(0, CallOutcome::Failed("connection reset".to_string())), ReverseStep::Retry { attempt: 1, backoff_ms: 800 }));
    assert!(matches!(reverse_step(1, CallOutcome::TimedOut), ReverseStep::Retry { attempt: 2, backoff_ms: 1600 }));
    assert!(matches!(reverse_step(2, CallOutcome::TimedOut), ReverseStep::GiveUp));
    assert!(matches!(reverse_step(2, CallOutcome::Failed("boom".to_string())), ReverseStep::GiveUp));
    assert!(is_contract_revert("execution reverted"));
    assert!(!is_contract_revert("execution"));
}

#[test]
fn batch_stats_count_results() {
    let mut s = EnsBatchStats::default();
    s.record(LookupResult::Resolved);
    s.record(LookupResult::Missed);
    s.record(LookupResult::Missed);
    s.record(LookupResult::Errored);
    assert_eq!((s.resolved, s.miss, s.errored), (1, 2, 1));
}
