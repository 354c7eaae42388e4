use std::str::FromStr;

use lportfolio::chain::{parse_chain, Chain};

#[test]
fn names_are_unique_and_lowercase() {
    for c in Chain::all() {
        assert_eq!(c.name(), c.name().to_ascii_lowercase());
    }
    let mut names: Vec<_> = Chain::all().iter().map(|c| c.name()).collect();
    names.sort();
    names.dedup();
    assert_eq!(names.len(), Chain::all().len());
}

#[test]
fn from_str_accepts_name_and_id() {
    assert_eq!(Chain::from_str("mainnet").unwrap(), Chain::Mainnet);
    assert_eq!(Chain::from_str("MAINNET").unwrap(), Chain::Mainnet);
    assert_eq!(Chain::from_str("1").unwrap(), Chain::Mainnet);
    assert_eq!(Chain::from_str("42161").unwrap(), Chain::Arbitrum);
    assert!(Chain::from_str("polygon").is_err());
}

#[test]
fn chain_ids_and_names() {
    assert_eq!(Chain::Mainnet.id(), 1);
    assert_eq!(Chain::Arbitrum.id(), 42161);
    assert_eq!(Chain::Optimism.id(), 10);
    assert_eq!(Chain::Base.id(), 8453);
    assert_eq!(Chain::Base.name(), "base");
    assert_eq!(Chain::Optimism.to_string(), "optimism");
    assert_eq!(Chain::Arbitrum.rpc_env_key(), "LPORTFOLIO_RPC_ARBITRUM");
}

#[test]
fn from_id_inverts_id() {
    for c in Chain::all() {
        assert_eq!(Chain::from_id(c.id()), Some(c));
    }
    assert_eq!(Chain::from_id(5), None);
}

#[test]
fn parse_chain_reports_unknown() {
    assert_eq!(parse_chain("polygon"), Err("unknown chain: polygon".to_string()));
    assert_eq!(parse_chain("+10"), Ok(Chain::Optimism));
    assert_eq!(parse_chain("Base"), Ok(Chain::Base));
    assert_eq!(parse_chain("137"), Err("unknown chain: 137".to_string()));
}
