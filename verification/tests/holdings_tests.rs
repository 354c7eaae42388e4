use lportfolio::chain::Chain;
use lportfolio::config::{ChainConfig, ChainMap, Config};
use lportfolio::csm::CsmBond;
use lportfolio::db::CachedStakingSummary;
use lportfolio::holdings::{
    aggregate_native,
    cached_staking_row, csm_rows, csm_rpc_url, fresh_staking_rows, gwei_to_wei, staking_max_age_secs, staking_wanted,
    CsmRow, NativeRow, PortfolioSnapshot, StakingRow,
};
use lportfolio::portfolio_view::{add_thousands_separators, format_amount_compact, CellAgg};
use lportfolio::primitives::{zero_address, Address, U256};
use lportfolio::staking::{summarize_balances, validators_url, StakingSummary};

fn wei(n: u64) -> U256 {
    U256::from_u64(n)
}

fn native(alias: &str, chain: Chain, n: u64) -> NativeRow {
    NativeRow { alias: alias.into(), address: zero_address(), chain, balance_wei: wei(n) }
}

#[test]
fn grand_total_sums_native_and_staking() {
    let snap = PortfolioSnapshot {
        native: vec![native("a", Chain::Mainnet, 1_000_000_000_000_000_000)],
        staking: vec![StakingRow { alias: "a".into(), validator_count: 1, total_balance_gwei: 32_000_000_000, from_cache: false }],
        csm: vec![],
    };
    let total = snap.grand_total_eth_wei();
    // 33 * 10^18 needs more than 64 bits.
    let expected = U256 { w0: (33u128 * 1_000_000_000_000_000_000u128) as u64, w1: ((33u128 * 1_000_000_000_000_000_000u128) >> 64) as u64, w2: 0, w3: 0 };
    assert_eq!(total, expected);
}

#[test]
fn native_by_chain_aggregates() {
    let snap = PortfolioSnapshot {
        native: vec![native("a", Chain::Mainnet, 1), native("b", Chain::Mainnet, 2), native("a", Chain::Arbitrum, 5)],
        staking: vec![],
        csm: vec![],
    };
    let by_chain = snap.native_total_by_chain();
    let get = |c: Chain| by_chain.iter().find(|(k, _)| *k == c).map(|(_, v)| *v).unwrap();
    assert_eq!(get(Chain::Mainnet), wei(3));
    assert_eq!(get(Chain::Arbitrum), wei(5));
}

#[test]
fn per_chain_and_per_alias_totals_are_ordered() {
    let snap = PortfolioSnapshot {
        native: vec![native("b", Chain::Base, 4), native("a", Chain::Mainnet, 1), native("b", Chain::Mainnet, 2)],
        staking: vec![],
        csm: vec![CsmRow { operator_id: 1, bond_steth_wei: wei(10) }, CsmRow { operator_id: 2, bond_steth_wei: wei(5) }],
    };
    let by_chain = snap.native_total_by_chain();
    assert_eq!(by_chain, vec![(Chain::Mainnet, wei(3)), (Chain::Base, wei(4))]);
    let by_alias = snap.native_total_by_alias();
    assert_eq!(by_alias, vec![("a".to_string(), wei(1)), ("b".to_string(), wei(6))]);
    assert_eq!(snap.grand_total_steth_wei(), wei(15));
    assert_eq!(snap.grand_total_eth_wei(), wei(7));
}

#[test]
fn gwei_converts_to_wei() {
    assert_eq!(gwei_to_wei(2), wei(2_000_000_000));
    let v = 32u128 * 1_000_000_000_000_000_000u128;
    assert_eq!(gwei_to_wei(32_000_000_000), U256 { w0: v as u64, w1: (v >> 64) as u64, w2: 0, w3: 0 });
}

#[test]
fn staking_rows_from_cache_and_fresh() {
    assert_eq!(staking_max_age_secs(true), None);
    assert_eq!(staking_max_age_secs(false), Some(300));
    let row = cached_staking_row(Some(CachedStakingSummary { validator_count: 2, total_balance_gwei: 64 })).unwrap();
    assert_eq!((row.alias.as_str(), row.validator_count, row.total_balance_gwei, row.from_cache), ("validators", 2, 64, true));
    assert!(cached_staking_row(Some(CachedStakingSummary { validator_count: 0, total_balance_gwei: 0 })).is_none());
    assert!(cached_staking_row(None).is_none());
    assert!(fresh_staking_rows(&StakingSummary { validator_count: 0, total_balance_gwei: 0 }).is_empty());
    let rows = fresh_staking_rows(&StakingSummary { validator_count: 3, total_balance_gwei: 96 });
    assert_eq!(rows.len(), 1);
    assert!(!rows[0].from_cache);
}

#[test]
fn sections_wanted_from_config() {
    let mut cfg = Config::empty();
    assert!(!staking_wanted(&cfg));
    cfg.beacon_url = Some("http://b".to_string());
    assert!(!staking_wanted(&cfg));
    cfg.validator_indices = vec![1];
    assert!(staking_wanted(&cfg));
    cfg.csm_operator_ids = vec![9];
    assert_eq!(csm_rpc_url(&cfg), None);
    let mut chains = ChainMap::new();
    chains.insert(Chain::Mainnet, ChainConfig { rpc_url: "http://eth".to_string() });
    cfg.chains = chains;
    assert_eq!(csm_rpc_url(&cfg), Some("http://eth".to_string()));
    let rows = csm_rows(&[CsmBond { operator_id: 9, bond_steth_wei: wei(1) }]);
    assert_eq!((rows[0].operator_id, rows[0].bond_steth_wei), (9, wei(1)));
}

#[test]
fn staking_summary_and_url() {
    let s = summarize_balances(&[32_500_000_000, 32_100_000_000]);
    assert_eq!((s.validator_count, s.total_balance_gwei), (2, 64_600_000_000));
    let e = summarize_balances(&[]);
    assert_eq!((e.validator_count, e.total_balance_gwei), (0, 0));
    assert_eq!(
        validators_url("http://node:3500//", &[7654, 43867]),
        "http://node:3500/eth/v1/beacon/states/head/validators?id=7654,43867"
    );
}

#[test]
fn thousands_separators() {
    assert_eq!(add_thousands_separators("1"), "1");
    assert_eq!(add_thousands_separators("123"), "123");
    assert_eq!(add_thousands_separators("1234"), "1,234");
    assert_eq!(add_thousands_separators("1234567"), "1,234,567");
    assert_eq!(add_thousands_separators("123456"), "123,456");
}

#[test]
fn compact_amounts() {
    assert_eq!(format_amount_compact(U256::from_u64(1_234_567_890_000_000_000), 18, 4), "1.2345");
    assert_eq!(format_amount_compact(U256::from_u64(12_345_678_900), 6, 2), "12,345.67");
    assert_eq!(format_amount_compact(U256::from_u64(5), 0, 2), "5.00");
    assert_eq!(format_amount_compact(U256::from_u64(1234), 0, 0), "1,234");
    assert_eq!(format_amount_compact(U256::from_u64(5), 3, 4), "0.0050");
}

#[test]
fn cells_merge_and_render() {
    let mut a = CellAgg::new();
    a.add_native(U256::from_u64(1_000_000_000_000_000_000));
    a.add_token("USDC", U256::from_u64(5_000_000), 6);
    a.add_token("DAI", U256::from_u64(9_000), 6);
    let mut b = CellAgg::new();
    b.add_token("USDC", U256::from_u64(1_000_000), 6);
    b.add_native(U256::from_u64(500_000_000_000_000_000));
    a.merge(&b);
    assert_eq!(a.native_wei, U256::from_u64(1_500_000_000_000_000_000));
    let usdc = a.tokens.iter().find(|t| t.0 == "USDC").unwrap();
    assert_eq!(usdc.1, U256::from_u64(6_000_000));
    // 0.009 DAI is below the 0.01 display threshold.
    let entries = a.entries();
    assert_eq!(entries, vec![("1.5000".to_string(), "ETH".to_string()), ("6.00".to_string(), "USDC".to_string())]);
    assert_eq!(a.render(), "1.5000 ETH\n  6.00 USDC");
}

#[test]
fn threshold_keeps_a_hundredth() {
    let mut c = CellAgg::new();
    c.add_token("A", U256::from_u64(10_000), 6);
    c.add_token("B", U256::from_u64(1), 1);
    c.add_token("C", U256::zero(), 0);
    let entries = c.entries();
    let syms: Vec<&str> = entries.iter().map(|e| e.1.as_str()).collect();
    assert_eq!(syms, vec!["ETH", "A", "B"]);
}

#[test]
fn native_grid_groups_by_alias_address_and_chain() {
    let a: Address = "0x00000000000000000000000000000000000000a1".parse().unwrap();
    let b: Address = "0x00000000000000000000000000000000000000b2".parse().unwrap();
    let row = |alias: &str, address: Address, chain: Chain, wei: u64| NativeRow {
        alias: alias.to_string(),
        address,
        chain,
        balance_wei: U256::from_u64(wei),
    };
    let rows = vec![
        row("hot", a, Chain::Base, 5),
        row("cold", b, Chain::Mainnet, 3),
        row("hot", a, Chain::Mainnet, 2),
        row("hot", a, Chain::Base, 1),
    ];
    let g = aggregate_native(&rows);
    assert_eq!(
        g.cells,
        vec![
            ("cold".to_string(), b, Chain::Mainnet, U256::from_u64(3)),
            ("hot".to_string(), a, Chain::Mainnet, U256::from_u64(2)),
            ("hot".to_string(), a, Chain::Base, U256::from_u64(6)),
        ]
    );
    assert_eq!(g.columns, vec![(Chain::Mainnet, U256::from_u64(5)), (Chain::Base, U256::from_u64(6))]);
    assert_eq!(g.total, U256::from_u64(11));
}
