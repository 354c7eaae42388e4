use lportfolio::chain::Chain;
use lportfolio::config::{ChainConfig, ChainMap, Config, ConfigError, ConfigToml};
use lportfolio::data_dir::{join_file, FilesDir};
use lportfolio::interactive::{entry_header, label_answer, label_kind, LabelAnswer, PromptOutcome};
use lportfolio::db::UnknownCounterparty;
use lportfolio::prices::{coin_id, price_query, price_url};
use lportfolio::primitives::{Address};
use lportfolio::settings::{
    build_config, csv_from_u64s, distinct_whitelist_ids, parse_u64_csv, startup_screen, Screen, SettingsState,
};
use lportfolio::tokens::{deployments_for, is_listed, registry, trusted_symbol_for, whitelist_labels};

fn addr(s: &str) -> Address {
    s.parse::<Address>().unwrap()
}

fn sample() -> Config {
    let mut chains = ChainMap::new();
    chains.insert(Chain::Optimism, ChainConfig { rpc_url: "https://op.example".to_string() });
    Config {
        addresses: vec![("hot".to_string(), addr("0x0000000000000000000000000000000000000001"))],
        chains,
        etherscan_api_key: Some("secret".to_string()),
        beacon_url: None,
        validator_indices: vec![5, 6],
        csm_operator_ids: vec![],
        token_whitelist: vec!["DAI".to_string(), "USDC".to_string()],
        safes: vec!["hot".to_string()],
        db_path_override: None,
    }
}

#[test]
fn form_fills_from_config_and_saves_back() {
    let cfg = sample();
    let s = SettingsState::from_config(&cfg);
    assert_eq!(s.addresses, vec![("hot".to_string(), "0x0000000000000000000000000000000000000001".to_string())]);
    assert_eq!(s.rpc_optimism, "https://op.example");
    assert_eq!(s.rpc_mainnet, "");
    assert_eq!(s.validator_indices, "5,6");
    assert_eq!(s.csm_operator_ids, "");
    let back = build_config(&s).unwrap();
    assert_eq!(back.addresses, cfg.addresses);
    assert_eq!(back.validator_indices, cfg.validator_indices);
    assert_eq!(back.token_whitelist, cfg.token_whitelist);
    assert_eq!(back.safes, cfg.safes);
    assert_eq!(back.etherscan_api_key, None);
    assert_eq!(back.chains.get(Chain::Optimism).map(|c| c.rpc_url.clone()), Some("https://op.example".to_string()));
}

#[test]
fn blank_form_and_errors() {
    let mut s = SettingsState::default();
    assert_eq!(s.addresses.len(), 1);
    assert!(matches!(build_config(&s), Err(ConfigError::AddressRequired)));
    s.addresses = vec![(" ".to_string(), " 0x0000000000000000000000000000000000000001".to_string())];
    match build_config(&s) {
        Err(ConfigError::AddressWithoutAlias(a)) => assert_eq!(a, "0x0000000000000000000000000000000000000001"),
        other => panic!("unexpected: {other:?}"),
    }
    s.addresses = vec![("hot".to_string(), String::new())];
    assert!(matches!(build_config(&s), Err(ConfigError::AliasWithoutAddress(a)) if a == "hot"));
    s.addresses = vec![("hot".to_string(), "0x0000000000000000000000000000000000000001".to_string())];
    s.validator_indices = "1, x".to_string();
    assert!(matches!(build_config(&s), Err(ConfigError::InvalidNumber { item, .. }) if item == "x"));
    s.validator_indices = String::new();
    s.safes = vec!["ghost".to_string()];
    assert!(matches!(build_config(&s), Err(ConfigError::UnknownSafe(a)) if a == "ghost"));
    s.safes = vec![];
    s.db_path_override = "  /data/x.sqlite ".to_string();
    assert_eq!(build_config(&s).unwrap().db_path_override, Some("/data/x.sqlite".to_string()));
}

#[test]
fn csv_helpers() {
    assert_eq!(csv_from_u64s(&[1, 22, 333]), "1,22,333");
    assert_eq!(csv_from_u64s(&[]), "");
    assert_eq!(parse_u64_csv("1,22,333", "validator index").unwrap(), vec![1, 22, 333]);
    assert_eq!(parse_u64_csv(&csv_from_u64s(&[u64::MAX, 0]), "id").unwrap(), vec![u64::MAX, 0]);
}

#[test]
fn whitelist_choices_each_once() {
    assert_eq!(
        distinct_whitelist_ids(),
        vec!["USDC", "USDT", "ARB", "DAI", "EIGEN", "PUFFER", "SAFE", "ETHFI", "STRK"]
    );
}

#[test]
fn startup_screens() {
    assert_eq!(startup_screen(true), Screen::Holdings);
    assert_eq!(startup_screen(false), Screen::Settings);
}

#[test]
fn files_dir_paths() {
    let mut d = FilesDir::new();
    d.set("/data/app/files".to_string());
    d.set("/elsewhere".to_string());
    assert_eq!(d.get(), "/data/app/files");
    assert_eq!(d.config_path(), "/data/app/files/config.toml");
    assert_eq!(d.default_db_path(), "/data/app/files/db.sqlite");
    assert_eq!(join_file("/x/", "a"), "/x/a");
    assert_eq!(join_file("", "a"), "a");
}

#[test]
fn prompt_answers() {
    assert_eq!(label_answer("q"), LabelAnswer::Quit);
    assert_eq!(label_answer("Q"), LabelAnswer::Quit);
    assert_eq!(label_answer(""), LabelAnswer::Skip);
    assert_eq!(label_answer("qq"), LabelAnswer::Label);
    assert_eq!(label_kind(""), "contract");
    assert_eq!(label_kind("eoa"), "eoa");
    let mut o = PromptOutcome::new();
    o.record(&LabelAnswer::Label);
    o.record(&LabelAnswer::Skip);
    o.record(&LabelAnswer::Quit);
    assert_eq!((o.tagged, o.skipped, o.remaining(5)), (1, 1, 3));
    let item = UnknownCounterparty { chain_id: 10, address: addr("0x00000000000000000000000000000000000000ab"), interactions: 1 };
    assert_eq!(entry_header(0, 3, &item), "\n[1/3] optimism  0x00000000000000000000000000000000000000ab  (1 interaction)");
    let item = UnknownCounterparty { chain_id: 99, address: addr("0x00000000000000000000000000000000000000ab"), interactions: 4 };
    assert_eq!(entry_header(2, 3, &item), "\n[3/3] 99  0x00000000000000000000000000000000000000ab  (4 interactions)");
}

#[test]
fn price_queries() {
    assert_eq!(coin_id("USDC.e"), Some("usd-coin"));
    assert_eq!(coin_id("PUFFER"), None);
    let q = price_query(&["USDC", "ETH", "PUFFER", "USDC.e"]);
    assert_eq!(q.ids, vec!["ethereum".to_string(), "usd-coin".to_string()]);
    assert_eq!(q.wanted.len(), 3);
    assert_eq!(q.wanted[2], ("USDC.e".to_string(), "usd-coin".to_string()));
    assert_eq!(
        price_url(&q.ids),
        "https://api.coingecko.com/api/v3/simple/price?ids=ethereum,usd-coin&vs_currencies=usd"
    );
}

#[test]
fn token_registry_lookups() {
    assert_eq!(registry().len(), 14);
    let wl = vec!["USDC".to_string(), "ARB".to_string()];
    let arb = deployments_for(42161, &wl);
    assert_eq!(arb.len(), 3);
    assert!(is_listed(&wl, "ARB"));
    assert!(!is_listed(&wl, "arb"));
    assert_eq!(whitelist_labels(&wl).len(), 5);
    assert_eq!(trusted_symbol_for(42161, addr("0xff970a61a04b1ca14834a43f5de4533ebddb5cc8")), Some("USDC.e"));
    assert_eq!(trusted_symbol_for(1, addr("0xff970a61a04b1ca14834a43f5de4533ebddb5cc8")), None);
}

#[test]
fn file_roundtrip_keeps_sample() {
    let cfg = sample();
    let back = ConfigToml::from_config(&cfg).into_config().unwrap();
    assert_eq!(back.addresses, cfg.addresses);
    assert_eq!(back.token_whitelist, cfg.token_whitelist);
    assert_eq!(back.etherscan_api_key, None);
}
