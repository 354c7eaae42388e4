use lportfolio::chain::Chain;
use lportfolio::config::{
    parse_addresses, parse_u64_list, AddressEntry, BeaconEntry, ChainConfig, ChainEntry, ChainMap, Config,
    ConfigEnv, ConfigError, ConfigToml, CsmEntry, TokensEntry,
};
use lportfolio::primitives::Address;

fn addr(s: &str) -> Address {
    s.parse::<Address>().unwrap()
}

fn lookup<'a>(v: &'a [(String, Address)], alias: &str) -> Option<&'a Address> {
    v.iter().find(|(a, _)| a == alias).map(|(_, x)| x)
}

#[test]
fn parses_one_entry() {
    let raw = "hot=0x0000000000000000000000000000000000000001";
    let out = parse_addresses(raw).unwrap();
    assert_eq!(out.len(), 1);
    let mut expected = [0u8; 20];
    expected[19] = 1;
    assert_eq!(lookup(&out, "hot").unwrap().to_bytes(), expected.to_vec());
}

#[test]
fn parses_multiple_entries_with_whitespace() {
    let raw = " hot = 0x0000000000000000000000000000000000000001 , cold=0x0000000000000000000000000000000000000002 ";
    let out = parse_addresses(raw).unwrap();
    assert_eq!(out.len(), 2);
    assert!(lookup(&out, "hot").is_some());
    assert!(lookup(&out, "cold").is_some());
}

#[test]
fn rejects_duplicate_alias() {
    let raw = "a=0x0000000000000000000000000000000000000001,a=0x0000000000000000000000000000000000000002";
    assert!(parse_addresses(raw).is_err());
}

#[test]
fn rejects_missing_equals() {
    let raw = "0x0000000000000000000000000000000000000001";
    assert!(parse_addresses(raw).is_err());
}

#[test]
fn rejects_empty() {
    assert!(parse_addresses("").is_err());
    assert!(parse_addresses("  ").is_err());
}

#[test]
fn rejects_bad_address() {
    let raw = "alias=0xnothex";
    assert!(parse_addresses(raw).is_err());
}

#[test]
fn parse_addresses_errors_name_the_entry() {
    match parse_addresses("0x0000000000000000000000000000000000000001") {
        Err(ConfigError::MissingEquals(e)) => assert_eq!(e, "0x0000000000000000000000000000000000000001"),
        other => panic!("unexpected: {other:?}"),
    }
    match parse_addresses(" = 0x0000000000000000000000000000000000000001") {
        Err(ConfigError::EmptyAlias) => {}
        other => panic!("unexpected: {other:?}"),
    }
    match parse_addresses("alias= 0xnothex ") {
        Err(ConfigError::InvalidAddress { alias, address }) => {
            assert_eq!(alias, "alias");
            assert_eq!(address, "0xnothex");
        }
        other => panic!("unexpected: {other:?}"),
    }
    match parse_addresses("a=0x0000000000000000000000000000000000000001,a=0x0000000000000000000000000000000000000002") {
        Err(ConfigError::DuplicateAlias(a)) => assert_eq!(a, "a"),
        other => panic!("unexpected: {other:?}"),
    }
    match parse_addresses(" , ,") {
        Err(ConfigError::AddressesEmpty) => {}
        other => panic!("unexpected: {other:?}"),
    }
}

#[test]
fn parse_addresses_orders_by_alias() {
    let out = parse_addresses(
        "zeta=0x0000000000000000000000000000000000000001,alpha=0x0000000000000000000000000000000000000002",
    )
    .unwrap();
    assert_eq!(out[0].0, "alpha");
    assert_eq!(out[1].0, "zeta");
    assert_eq!(out[0].1, addr("0x0000000000000000000000000000000000000002"));
}

#[test]
fn parse_u64_list_skips_blanks_and_reports_bad_items() {
    assert_eq!(parse_u64_list(" 1, 2 ,,3 ", "validator index").unwrap(), vec![1, 2, 3]);
    assert_eq!(parse_u64_list("", "validator index").unwrap(), Vec::<u64>::new());
    match parse_u64_list("1,x2", "validator index") {
        Err(ConfigError::InvalidNumber { what, item }) => {
            assert_eq!(what, "validator index");
            assert_eq!(item, "x2");
        }
        other => panic!("unexpected: {other:?}"),
    }
    assert!(parse_u64_list("18446744073709551616", "id").is_err());
}

fn sample_config() -> Config {
    let addresses = vec![
        ("cold".to_string(), addr("0x0000000000000000000000000000000000000002")),
        ("hot".to_string(), addr("0x0000000000000000000000000000000000000001")),
    ];
    let mut chains = ChainMap::new();
    chains.insert(Chain::Mainnet, ChainConfig { rpc_url: "https://eth.example".to_string() });
    chains.insert(Chain::Arbitrum, ChainConfig { rpc_url: "https://arb.example".to_string() });
    Config {
        addresses,
        chains,
        etherscan_api_key: None,
        beacon_url: Some("http://localhost:5052".to_string()),
        validator_indices: vec![1, 2, 3],
        csm_operator_ids: vec![42],
        token_whitelist: vec!["USDC".to_string(), "USDT".to_string()],
        safes: vec!["cold".to_string()],
        db_path_override: Some("/tmp/db.sqlite".to_string()),
    }
}

fn url(m: &ChainMap, c: Chain) -> Option<String> {
    m.get(c).map(|cc| cc.rpc_url.clone())
}

#[test]
fn roundtrip_toml() {
    let cfg = sample_config();
    let loaded = ConfigToml::from_config(&cfg).into_config().unwrap();

    assert_eq!(cfg.addresses, loaded.addresses);
    assert_eq!(cfg.chains.len(), loaded.chains.len());
    for c in cfg.chains.chains() {
        assert_eq!(url(&cfg.chains, c), url(&loaded.chains, c));
    }
    assert_eq!(cfg.beacon_url, loaded.beacon_url);
    assert_eq!(cfg.validator_indices, loaded.validator_indices);
    assert_eq!(cfg.csm_operator_ids, loaded.csm_operator_ids);
    assert_eq!(cfg.token_whitelist, loaded.token_whitelist);
    assert_eq!(cfg.safes, loaded.safes);
    assert_eq!(cfg.db_path_override, loaded.db_path_override);
}

fn hot_only(safes: Vec<String>, chains: Vec<(String, ChainEntry)>) -> ConfigToml {
    ConfigToml {
        addresses: vec![AddressEntry {
            alias: "hot".to_string(),
            address: "0x0000000000000000000000000000000000000001".to_string(),
        }],
        chains,
        beacon: None,
        csm: None,
        tokens: None,
        safes,
        db_path: None,
    }
}

#[test]
fn from_toml_rejects_unknown_safe() {
    let err = hot_only(vec!["ghost".to_string()], Vec::new()).into_config().unwrap_err();
    match err {
        ConfigError::UnknownSafe(a) => assert!(a.contains("ghost"), "expected error to mention alias, got: {a}"),
        other => panic!("unexpected: {other:?}"),
    }
}

#[test]
fn from_toml_accepts_partial() {
    let cfg = hot_only(Vec::new(), Vec::new()).into_config().unwrap();
    assert_eq!(cfg.addresses.len(), 1);
    assert!(cfg.chains.is_empty());
    assert_eq!(cfg.beacon_url, None);
    assert!(cfg.validator_indices.is_empty());
    assert!(cfg.csm_operator_ids.is_empty());
    assert!(cfg.token_whitelist.is_empty());
    assert!(cfg.safes.is_empty());
    assert_eq!(cfg.db_path_override, None);
}

#[test]
fn from_toml_rejects_unknown_chain() {
    let chains = vec![("solana".to_string(), ChainEntry { rpc_url: "https://solana.example".to_string() })];
    let err = hot_only(Vec::new(), chains).into_config().unwrap_err();
    match err {
        ConfigError::UnknownChain(k) => assert!(k.contains("solana")),
        other => panic!("unexpected: {other:?}"),
    }
}

#[test]
fn into_config_trims_and_skips_blank() {
    let mut t = hot_only(vec!["  ".to_string(), " hot ".to_string()], vec![
        ("base".to_string(), ChainEntry { rpc_url: "   ".to_string() }),
        ("mainnet".to_string(), ChainEntry { rpc_url: " https://eth.example ".to_string() }),
    ]);
    t.beacon = Some(BeaconEntry { url: Some("  ".to_string()), validator_indices: vec![7] });
    t.csm = Some(CsmEntry { operator_ids: vec![3, 4] });
    t.tokens = Some(TokensEntry { whitelist: vec!["DAI".to_string()] });
    t.db_path = Some(" /data/db.sqlite ".to_string());
    let cfg = t.into_config().unwrap();
    assert_eq!(url(&cfg.chains, Chain::Mainnet), Some("https://eth.example".to_string()));
    assert_eq!(url(&cfg.chains, Chain::Base), None);
    assert_eq!(cfg.beacon_url, None);
    assert_eq!(cfg.validator_indices, vec![7]);
    assert_eq!(cfg.csm_operator_ids, vec![3, 4]);
    assert_eq!(cfg.token_whitelist, vec!["DAI".to_string()]);
    assert_eq!(cfg.safes, vec!["hot".to_string()]);
    assert_eq!(cfg.db_path_override, Some("/data/db.sqlite".to_string()));
}

#[test]
fn into_config_errors() {
    let mut t = hot_only(Vec::new(), Vec::new());
    t.addresses.push(AddressEntry { alias: " hot".to_string(), address: "0x0000000000000000000000000000000000000009".to_string() });
    match t.into_config() {
        Err(ConfigError::DuplicateAlias(a)) => assert_eq!(a, "hot"),
        other => panic!("unexpected: {other:?}"),
    }
    let mut t = hot_only(Vec::new(), Vec::new());
    t.addresses[0].alias = "   ".to_string();
    assert!(matches!(t.into_config(), Err(ConfigError::EntryWithoutAlias)));
    let mut t = hot_only(Vec::new(), Vec::new());
    t.addresses[0].address = " 0x12 ".to_string();
    match t.into_config() {
        Err(ConfigError::InvalidAddress { alias, address }) => {
            assert_eq!(alias, "hot");
            assert_eq!(address, " 0x12 ");
        }
        other => panic!("unexpected: {other:?}"),
    }
    let mut t = hot_only(Vec::new(), Vec::new());
    t.addresses.clear();
    assert!(matches!(t.into_config(), Err(ConfigError::NoAddresses)));
}

#[test]
fn from_config_writes_sorted_chain_tables_and_hex() {
    let t = ConfigToml::from_config(&sample_config());
    let keys: Vec<&str> = t.chains.iter().map(|(k, _)| k.as_str()).collect();
    assert_eq!(keys, vec!["arbitrum", "mainnet"]);
    assert_eq!(t.addresses[1].address, "0x0000000000000000000000000000000000000001");
    assert!(t.beacon.is_some());
    assert_eq!(t.csm.as_ref().unwrap().operator_ids, vec![42]);
    let empty = ConfigToml::from_config(&Config::empty());
    assert!(empty.beacon.is_none() && empty.csm.is_none() && empty.tokens.is_none());
}

fn env() -> ConfigEnv {
    ConfigEnv {
        addresses: Some("hot=0x0000000000000000000000000000000000000001,cold=0x0000000000000000000000000000000000000002".to_string()),
        rpc_mainnet: Some(" http://node:8545 ".to_string()),
        rpc_arbitrum: Some("   ".to_string()),
        rpc_optimism: None,
        rpc_base: None,
        etherscan_api_key: Some(String::new()),
        beacon_url: Some(" http://node:3500 ".to_string()),
        validator_indices: Some("12345,12346".to_string()),
        csm_operator_ids: Some("42".to_string()),
        token_whitelist: Some("USDC, USDT,,ARB".to_string()),
        safes: Some("hot, cold, hot".to_string()),
        db_path: Some("  ".to_string()),
    }
}

#[test]
fn load_reads_environment_settings() {
    let cfg = Config::load(&env()).unwrap();
    assert_eq!(cfg.addresses.len(), 2);
    assert_eq!(url(&cfg.chains, Chain::Mainnet), Some(" http://node:8545 ".to_string()));
    assert_eq!(url(&cfg.chains, Chain::Arbitrum), None);
    assert_eq!(cfg.etherscan_api_key, None);
    assert_eq!(cfg.beacon_url, Some("http://node:3500".to_string()));
    assert_eq!(cfg.validator_indices, vec![12345, 12346]);
    assert_eq!(cfg.csm_operator_ids, vec![42]);
    assert_eq!(cfg.token_whitelist, vec!["USDC".to_string(), "USDT".to_string(), "ARB".to_string()]);
    assert_eq!(cfg.safes, vec!["cold".to_string(), "hot".to_string()]);
    assert_eq!(cfg.db_path_override, None);
}

#[test]
fn load_errors() {
    let mut e = env();
    e.addresses = None;
    assert!(matches!(Config::load(&e), Err(ConfigError::AddressesUnset)));
    let mut e = env();
    e.safes = Some("ghost".to_string());
    match Config::load(&e) {
        Err(ConfigError::UnknownEnvSafe(a)) => assert_eq!(a, "ghost"),
        other => panic!("unexpected: {other:?}"),
    }
    let mut e = env();
    e.csm_operator_ids = Some("4x".to_string());
    match Config::load(&e) {
        Err(ConfigError::InvalidNumber { what, item }) => {
            assert_eq!(what, "CSM operator id");
            assert_eq!(item, "4x");
        }
        other => panic!("unexpected: {other:?}"),
    }
}
