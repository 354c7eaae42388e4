use lportfolio::decode::aave::{pool_v3, AaveV3};
use lportfolio::decode::across::{spoke_mainnet, Across};
use lportfolio::decode::cowswap::{settlement, vault_relayer, Cowswap};
use lportfolio::decode::erc20::synthesize;
use lportfolio::decode::lido::{steth, wsteth, Lido};
use lportfolio::decode::splits::{split_main_v1, Splits};
use lportfolio::decode::uniswap::{v3_router_02, Uniswap};
use lportfolio::decode::{
    classify_direction, Action, ContractDecoder, DecoderKind, Direction, ProtocolKind, RawTransfer, RawTx, Registry,
};
use lportfolio::primitives::{Address, U256};

fn addr(s: &str) -> Address {
    s.parse::<Address>().unwrap()
}

fn us() -> Address {
    addr("0x000000000000000000000000000000000000beef")
}

fn one_eth() -> U256 {
    U256::from_u64(1_000_000_000_000_000_000)
}

fn raw_tx(chain_id: u64, hash: &str, from: Address, to: Option<Address>, value_wei: U256, input_len: usize) -> RawTx {
    RawTx {
        chain_id,
        hash: hash.to_string(),
        timestamp: 1,
        from,
        to,
        value_wei,
        input_len,
        success: true,
        internals: Vec::new(),
    }
}

fn transfer(token: Address, from: Address, to: Address, amount: u64, symbol: &str, decimals: u32) -> RawTransfer {
    RawTransfer { token, from, to, amount: U256::from_u64(amount), symbol: symbol.to_string(), decimals }
}

#[test]
fn supply_when_sent_token_and_received_atoken() {
    let tx = raw_tx(1, "0x1", us(), Some(pool_v3()), U256::zero(), 100);
    let send_usdc = transfer(addr("0x000000000000000000000000000000000000beed"), us(), pool_v3(), 1_000_000_000, "USDC", 6);
    let recv_ausdc = transfer(
        addr("0x000000000000000000000000000000000000feed"),
        addr("0x0000000000000000000000000000000000000000"),
        us(),
        1_000_000_000,
        "aEthUSDC",
        6,
    );
    let actions = AaveV3.decode(us(), &tx, &[send_usdc, recv_ausdc]).expect("decode");
    assert!(matches!(&actions[..], [Action::Protocol { kind: ProtocolKind::Supply, .. }]));
}

#[test]
fn ignores_off_chain() {
    let tx = raw_tx(42161, "0x1", us(), Some(pool_v3()), U256::zero(), 100);
    assert!(AaveV3.decode(us(), &tx, &[]).is_none());
}

#[test]
fn detects_deposit_to_spoke() {
    let tx = raw_tx(1, "0x1", us(), Some(spoke_mainnet()), U256::zero(), 200);
    let send = transfer(addr("0x000000000000000000000000000000000000beed"), us(), spoke_mainnet(), 1_000_000_000, "USDC", 6);
    let actions = Across.decode(us(), &tx, &[send]).expect("decode");
    assert!(matches!(&actions[..], [Action::Protocol { protocol: "Across", kind: ProtocolKind::Bridge, .. }]));
}

#[test]
fn detects_swap_when_settlement_is_counterparty() {
    let tx = raw_tx(1, "0x1", addr("0x000000000000000000000000000000000000ee11"), Some(settlement()), U256::zero(), 200);
    let send = transfer(addr("0x000000000000000000000000000000000000aaaa"), us(), vault_relayer(), 1_000_000, "USDC", 6);
    let recv = transfer(addr("0x000000000000000000000000000000000000bbbb"), settlement(), us(), 1, "DAI", 18);
    let actions = Cowswap.decode(us(), &tx, &[send, recv]).expect("decode");
    assert!(matches!(&actions[..], [Action::Protocol { protocol: "CoW Protocol", kind: ProtocolKind::Swap, .. }]));
}

fn erc_us() -> Address {
    addr("0x0000000000000000000000000000000000000001")
}

fn erc_other() -> Address {
    addr("0x0000000000000000000000000000000000000002")
}

fn erc_tx(value_wei: U256, to: Option<Address>, from: Address, input_len: usize) -> RawTx {
    RawTx {
        chain_id: 1,
        hash: "0xhash".into(),
        timestamp: 1_700_000_000,
        from,
        to,
        value_wei,
        input_len,
        success: true,
        internals: Vec::new(),
    }
}

#[test]
fn outgoing_native_transfer_creates_one_action() {
    let value = one_eth();
    let dec = synthesize(erc_us(), &erc_tx(value, Some(erc_other()), erc_us(), 0), &[]);
    assert_eq!(dec.actions.len(), 1);
    match &dec.actions[0] {
        Action::NativeTransfer { direction: Direction::Out, counterparty, amount_wei } => {
            assert_eq!(*counterparty, erc_other());
            assert_eq!(*amount_wei, value);
        }
        other => panic!("unexpected: {other:?}"),
    }
}

#[test]
fn unrelated_tx_yields_no_actions() {
    let value = U256::from_u64(1);
    let third = addr("0x0000000000000000000000000000000000000003");
    let dec = synthesize(erc_us(), &erc_tx(value, Some(erc_other()), third, 0), &[]);
    assert!(dec.actions.is_empty());
}

#[test]
fn contract_call_with_no_value_emits_contract_call() {
    let dec = synthesize(erc_us(), &erc_tx(U256::zero(), Some(erc_other()), erc_us(), 64), &[]);
    assert!(matches!(dec.actions.as_slice(), [Action::ContractCall { .. }]));
}

#[test]
fn token_transfer_adds_action() {
    let raw = erc_tx(U256::zero(), Some(erc_other()), erc_us(), 64);
    let xfer = transfer(addr("0x000000000000000000000000000000000000abcd"), erc_us(), erc_other(), 1_000_000, "USDC", 6);
    let dec = synthesize(erc_us(), &raw, std::slice::from_ref(&xfer));
    assert_eq!(dec.actions.len(), 1);
    assert!(matches!(&dec.actions[0], Action::TokenTransfer { direction: Direction::Out, .. }));
}

#[test]
fn detects_steth_submit_as_stake() {
    let tx = raw_tx(1, "0x1", us(), Some(steth()), one_eth(), 4);
    let xfer = RawTransfer {
        token: steth(),
        from: addr("0x0000000000000000000000000000000000000000"),
        to: us(),
        amount: one_eth(),
        symbol: "stETH".into(),
        decimals: 18,
    };
    let actions = Lido.decode(us(), &tx, std::slice::from_ref(&xfer)).expect("decode");
    assert!(matches!(&actions[..], [Action::Protocol { protocol: "Lido", kind: ProtocolKind::Stake, .. }]));
}

#[test]
fn detects_wsteth_wrap() {
    let tx = raw_tx(1, "0x2", us(), Some(wsteth()), U256::zero(), 64);
    let send_steth = RawTransfer { token: steth(), from: us(), to: wsteth(), amount: one_eth(), symbol: "stETH".into(), decimals: 18 };
    let recv_wsteth = transfer(wsteth(), wsteth(), us(), 900_000_000_000_000_000, "wstETH", 18);
    let actions = Lido.decode(us(), &tx, &[send_steth, recv_wsteth]).expect("decode");
    assert!(matches!(&actions[..], [Action::Protocol { kind: ProtocolKind::Wrap, .. }]));
}

#[test]
fn ignores_non_lido_tx() {
    let tx = raw_tx(1, "0x3", us(), Some(addr("0x000000000000000000000000000000000000dead")), one_eth(), 0);
    assert!(Lido.decode(us(), &tx, &[]).is_none());
}

#[test]
fn distribute_when_user_only_receives_from_split() {
    let tx = raw_tx(1, "0x1", addr("0x000000000000000000000000000000000000ee11"), Some(split_main_v1()), U256::zero(), 100);
    let recv = transfer(addr("0x000000000000000000000000000000000000beed"), split_main_v1(), us(), 1_000_000_000, "USDC", 6);
    let actions = Splits.decode(us(), &tx, &[recv]).expect("decode");
    assert!(matches!(&actions[..], [Action::Protocol { protocol: "0xSplits", kind: ProtocolKind::Distribute, .. }]));
}

#[test]
fn detects_v3_swap() {
    let tx = raw_tx(1, "0x1", us(), Some(v3_router_02()), U256::zero(), 132);
    let send = transfer(
        addr("0x000000000000000000000000000000000000beed"),
        us(),
        addr("0x0000000000000000000000000000000000001234"),
        1_000_000_000,
        "USDC",
        6,
    );
    let recv = transfer(
        addr("0x000000000000000000000000000000000000feed"),
        addr("0x0000000000000000000000000000000000001234"),
        us(),
        500_000_000_000_000,
        "WETH",
        18,
    );
    let actions = Uniswap.decode(us(), &tx, &[send, recv]).expect("decode");
    match &actions[..] {
        [Action::Protocol { protocol: "Uniswap V3", kind: ProtocolKind::Swap, .. }] => {}
        other => panic!("unexpected: {other:?}"),
    }
}

#[test]
fn registry_falls_back_to_generic_decoding() {
    let reg = Registry::default_set();
    let tx = raw_tx(1, "0x9", us(), Some(addr("0x000000000000000000000000000000000000dead")), one_eth(), 0);
    let dec = reg.decode_tx(us(), &tx, &[]);
    assert_eq!(dec.hash, "0x9");
    assert!(matches!(dec.actions.as_slice(), [Action::NativeTransfer { direction: Direction::Out, .. }]));
    let stake = raw_tx(1, "0xa", us(), Some(steth()), one_eth(), 4);
    let mint = RawTransfer {
        token: steth(),
        from: addr("0x0000000000000000000000000000000000000000"),
        to: us(),
        amount: one_eth(),
        symbol: "stETH".into(),
        decimals: 18,
    };
    let dec = reg.decode_tx(us(), &stake, std::slice::from_ref(&mint));
    assert!(matches!(dec.actions.as_slice(), [Action::Protocol { protocol: "Lido", .. }]));
    // Without the minted stETH no decoder claims it: a plain ETH send.
    let dec = reg.decode_tx(us(), &stake, &[]);
    assert!(matches!(dec.actions.as_slice(), [Action::NativeTransfer { direction: Direction::Out, .. }]));
}

#[test]
fn registry_lists_known_contracts() {
    let reg = Registry::default_set();
    let labels = reg.known_labels();
    assert!(labels.iter().any(|k| k.address == steth() && k.chain_id == 1));
    let mut empty = Registry::default_set();
    empty.register(DecoderKind::Lido);
    assert!(empty.known_labels().len() > labels.len());
}

#[test]
fn classify_direction_cases() {
    let a = erc_us();
    let b = erc_other();
    assert_eq!(classify_direction(a, a, b), Some(Direction::Out));
    assert_eq!(classify_direction(a, b, a), Some(Direction::In));
    assert_eq!(classify_direction(a, a, a), Some(Direction::SelfTransfer));
    assert_eq!(classify_direction(a, b, b), None);
    assert_eq!(ProtocolKind::Other.label(), "Interaction");
}
