//! Raw transaction data and the generic decoding used when no protocol
//! decoder recognises a transaction: native ETH and ERC-20 transfers
//! involving the owned address, or a bare contract call.

use vstd::prelude::*;

use crate::primitives::{Address, U256};

use super::{Action, ActionView, DecodedTx, DecodedView, Direction, actions_view, classify_direction, direction_spec};

verus! {

#[derive(Debug)]
pub struct RawTx {
    pub chain_id: u64,
    pub hash: String,
    pub timestamp: u64,
    pub from: Address,
    pub to: Option<Address>,
    pub value_wei: U256,
    pub input_len: usize,
    pub success: bool,
    /// Internal calls made during the transaction's execution; only those
    /// that carry value matter for native ETH detection.
    pub internals: Vec<InternalTx>,
}

pub struct RawTxView {
    pub chain_id: u64,
    pub hash: Seq<char>,
    pub timestamp: u64,
    pub from: Address,
    pub to: Option<Address>,
    pub value_wei: U256,
    pub input_len: usize,
    pub success: bool,
    pub internals: Seq<InternalTx>,
}

impl View for RawTx {
    type V = RawTxView;

    open spec fn view(&self) -> RawTxView {
        RawTxView {
            chain_id: self.chain_id,
            hash: self.hash@,
            timestamp: self.timestamp,
            from: self.from,
            to: self.to,
            value_wei: self.value_wei,
            input_len: self.input_len,
            success: self.success,
            internals: self.internals@,
        }
    }
}

#[derive(Clone, Copy, Debug, PartialEq, Eq, Structural)]
pub struct InternalTx {
    pub from: Address,
    pub to: Address,
    pub value_wei: U256,
    pub success: bool,
}

#[derive(Debug)]
pub struct RawTransfer {
    pub token: Address,
    pub from: Address,
    pub to: Address,
    pub amount: U256,
    pub symbol: String,
    pub decimals: u32,
}

pub struct TransferView {
    pub token: Address,
    pub from: Address,
    pub to: Address,
    pub amount: U256,
    pub symbol: Seq<char>,
    pub decimals: u32,
}

impl View for RawTransfer {
    type V = TransferView;

    open spec fn view(&self) -> TransferView {
        TransferView {
            token: self.token,
            from: self.from,
            to: self.to,
            amount: self.amount,
            symbol: self.symbol@,
            decimals: self.decimals,
        }
    }
}

pub open spec fn transfers_view(v: Seq<RawTransfer>) -> Seq<TransferView> {
    v.map_values(|t: RawTransfer| t@)
}

/// The other party of a transfer in direction `d`: the receiver for
/// outgoing and self transfers, the sender for incoming ones.
pub open spec fn counterparty_spec(d: Direction, from: Address, to: Address) -> Address {
    match d {
        Direction::In => from,
        _ => to,
    }
}

/// The native transfer action of a transaction with value, if `us` is a party.
pub open spec fn native_action_spec(us: Address, tx: RawTxView) -> Seq<ActionView> {
    match tx.to {
        Some(to) => if tx.value_wei@ != 0 {
            match direction_spec(us, tx.from, to) {
                Some(d) => seq![
                    ActionView::NativeTransfer {
                        direction: d,
                        counterparty: counterparty_spec(d, tx.from, to),
                        amount_wei: tx.value_wei,
                    },
                ],
                None => seq![],
            }
        } else {
            seq![]
        },
        None => seq![],
    }
}

/// One token transfer action per transfer `us` is a party to, in order.
pub open spec fn token_actions_spec(us: Address, ts: Seq<TransferView>) -> Seq<ActionView>
    decreases ts.len(),
{
    if ts.len() == 0 {
        seq![]
    } else {
        let rest = token_actions_spec(us, ts.drop_last());
        let t = ts.last();
        match direction_spec(us, t.from, t.to) {
            Some(d) => rest.push(
                ActionView::TokenTransfer {
                    direction: d,
                    counterparty: counterparty_spec(d, t.from, t.to),
                    token: t.token,
                    symbol: t.symbol,
                    decimals: t.decimals,
                    amount: t.amount,
                },
            ),
            None => rest,
        }
    }
}

/// The generic decoding: native and token transfer actions; when there are
/// none and `us` called a contract with input, one contract-call action.
pub open spec fn synthesize_spec(us: Address, tx: RawTxView, ts: Seq<TransferView>) -> DecodedView {
    let transfers = native_action_spec(us, tx) + token_actions_spec(us, ts);
    let actions = if transfers.len() == 0 && tx.to is Some && tx.from == us && tx.input_len > 0 {
        seq![ActionView::ContractCall { contract: tx.to->0 }]
    } else {
        transfers
    };
    DecodedView {
        chain_id: tx.chain_id,
        hash: tx.hash,
        timestamp: tx.timestamp,
        success: tx.success,
        actions,
    }
}

/// A token action that stems from one of the transfers: same token and
/// amount; coming in, the counterparty is that transfer's sender and the
/// receiver is `us`; going out, the sender is `us` and the counterparty the
/// receiver; in both cases the counterparty is not `us`.
pub open spec fn token_action_from_transfers(us: Address, ts: Seq<TransferView>, a: ActionView) -> bool {
    match a {
        ActionView::TokenTransfer { direction, counterparty, token, amount, .. } => exists|i: int|
            #![trigger ts[i]]
            0 <= i < ts.len() && ts[i].token == token && ts[i].amount == amount && (direction == Direction::In ==> (
            ts[i].from == counterparty && ts[i].to == us && counterparty != us)) && (direction == Direction::Out ==> (
            ts[i].from == us && ts[i].to == counterparty && counterparty != us)),
        _ => false,
    }
}

proof fn lemma_token_action_parties(us: Address, ts: Seq<TransferView>, k: int)
    requires
        0 <= k < token_actions_spec(us, ts).len(),
    ensures
        token_action_from_transfers(us, ts, token_actions_spec(us, ts)[k]),
    decreases ts.len(),
{
    let rest = token_actions_spec(us, ts.drop_last());
    if k < rest.len() {
        lemma_token_action_parties(us, ts.drop_last(), k);
        assert(token_actions_spec(us, ts)[k] == rest[k]);
        let d = ts.drop_last();
        match rest[k] {
            ActionView::TokenTransfer { direction, counterparty, token, amount, .. } => {
                let i = choose|i: int|
                    #![trigger d[i]]
                    0 <= i < d.len() && d[i].token == token && d[i].amount == amount && (direction == Direction::In
                        ==> (d[i].from == counterparty && d[i].to == us && counterparty != us)) && (direction
                        == Direction::Out ==> (d[i].from == us && d[i].to == counterparty && counterparty != us));
                assert(ts[i] == d[i]);
            },
            _ => {},
        }
    } else {
        let i = ts.len() - 1;
        assert(ts[i] == ts.last());
    }
}

/// In the generic decoding, a transfer coming in names its sender as the
/// counterparty, and one going out its receiver; in both cases that party is
/// not `us`. A native transfer carries the transaction's value; a token
/// transfer stems from one of the transfers (see
/// [`token_action_from_transfers`]).
pub proof fn law_synthesize_counterparties(us: Address, tx: RawTxView, ts: Seq<TransferView>, k: int)
    requires
        0 <= k < synthesize_spec(us, tx, ts).actions.len(),
    ensures
        synthesize_spec(us, tx, ts).actions[k] matches ActionView::NativeTransfer { direction, counterparty, amount_wei }
            ==> amount_wei == tx.value_wei && (direction == Direction::In ==> (counterparty == tx.from && tx.to == Some(us)
            && counterparty != us)) && (direction == Direction::Out ==> (tx.from == us && tx.to == Some(counterparty)
            && counterparty != us)),
        synthesize_spec(us, tx, ts).actions[k] is TokenTransfer ==> token_action_from_transfers(
            us,
            ts,
            synthesize_spec(us, tx, ts).actions[k],
        ),
{
    let native = native_action_spec(us, tx);
    let tokens = token_actions_spec(us, ts);
    let transfers = native + tokens;
    if transfers.len() == 0 && tx.to is Some && tx.from == us && tx.input_len > 0 {
    } else {
        assert(synthesize_spec(us, tx, ts).actions == transfers);
        if k < native.len() {
            assert(transfers[k] == native[k]);
        } else {
            assert(transfers[k] == tokens[k - native.len()]);
            lemma_token_action_parties(us, ts, k - native.len());
        }
    }
}

/// Decodes a transaction as plain transfers seen from `us`.
pub fn synthesize(us: Address, tx: &RawTx, transfers: &[RawTransfer]) -> (r: DecodedTx)
    ensures
        r@ == synthesize_spec(us, tx@, transfers_view(transfers@)),
{
    let mut actions: Vec<Action> = Vec::new();
    if let Some(to) = tx.to {
        if !tx.value_wei.is_zero() {
            if let Some(direction) = classify_direction(us, tx.from, to) {
                let counterparty = match direction {
                    Direction::Out | Direction::SelfTransfer => to,
                    Direction::In => tx.from,
                };
                actions.push(
                    Action::NativeTransfer { direction, counterparty, amount_wei: tx.value_wei },
                );
            }
        }
    }
    let ghost native = actions_view(actions@);
    assert(native =~= native_action_spec(us, tx@));
    let ghost tv = transfers_view(transfers@);
    let mut i: usize = 0;
    while i < transfers.len()
        invariant
            i <= transfers@.len(),
            tv == transfers_view(transfers@),
            actions_view(actions@) == native + token_actions_spec(us, tv.take(i as int)),
        decreases transfers@.len() - i,
    {
        let t = &transfers[i];
        proof {
            assert(tv.take(i + 1).drop_last() =~= tv.take(i as int));
            assert(tv.take(i + 1).last() == t@);
        }
        if let Some(direction) = classify_direction(us, t.from, t.to) {
            let counterparty = match direction {
                Direction::Out | Direction::SelfTransfer => t.to,
                Direction::In => t.from,
            };
            let a = Action::TokenTransfer {
                direction,
                counterparty,
                token: t.token,
                symbol: t.symbol.clone(),
                decimals: t.decimals,
                amount: t.amount,
            };
            let ghost prev = actions@;
            actions.push(a);
            assert(actions_view(actions@) =~= actions_view(prev).push(a@));
        }
        i = i + 1;
    }
    assert(tv.take(transfers@.len() as int) =~= tv);
    if actions.len() == 0 {
        if let Some(to) = tx.to {
            if tx.from == us && tx.input_len > 0 {
                actions.push(Action::ContractCall { contract: to });
                assert(actions_view(actions@) =~= seq![ActionView::ContractCall { contract: to }]);
            }
        }
    }
    DecodedTx {
        chain_id: tx.chain_id,
        hash: tx.hash.clone(),
        timestamp: tx.timestamp,
        success: tx.success,
        actions,
    }
}

} // verus!
