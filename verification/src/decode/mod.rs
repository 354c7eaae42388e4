//! Transaction decoding: protocol-specific decoders turn a raw transaction
//! and the token transfers inside it into human-level actions seen from one
//! owned address.

pub mod aave;
pub mod across;
pub mod cowswap;
pub mod erc20;
pub mod lido;
pub mod splits;
pub mod uniswap;

use vstd::prelude::*;

use crate::primitives::{u256_add, u256_modulus, Address, U256};
use crate::text::{chars_of, string_of};

pub use self::erc20::{InternalTx, RawTransfer, RawTx};

verus! {

#[derive(Clone, Copy, Debug, PartialEq, Eq, Structural)]
pub enum Direction {
    Out,
    In,
    SelfTransfer,
}

#[derive(Clone, Copy, Debug, PartialEq, Eq, Structural)]
pub enum ProtocolKind {
    Stake,
    Unstake,
    Wrap,
    Unwrap,
    Swap,
    Supply,
    Withdraw,
    Borrow,
    Repay,
    Bridge,
    Distribute,
    Claim,
    Other,
}

pub open spec fn kind_label_spec(k: ProtocolKind) -> Seq<char> {
    match k {
        ProtocolKind::Stake => seq!['S', 't', 'a', 'k', 'e'],
        ProtocolKind::Unstake => seq!['U', 'n', 's', 't', 'a', 'k', 'e'],
        ProtocolKind::Wrap => seq!['W', 'r', 'a', 'p'],
        ProtocolKind::Unwrap => seq!['U', 'n', 'w', 'r', 'a', 'p'],
        ProtocolKind::Swap => seq!['S', 'w', 'a', 'p'],
        ProtocolKind::Supply => seq!['S', 'u', 'p', 'p', 'l', 'y'],
        ProtocolKind::Withdraw => seq!['W', 'i', 't', 'h', 'd', 'r', 'a', 'w'],
        ProtocolKind::Borrow => seq!['B', 'o', 'r', 'r', 'o', 'w'],
        ProtocolKind::Repay => seq!['R', 'e', 'p', 'a', 'y'],
        ProtocolKind::Bridge => seq!['B', 'r', 'i', 'd', 'g', 'e'],
        ProtocolKind::Distribute => seq!['D', 'i', 's', 't', 'r', 'i', 'b', 'u', 't', 'e'],
        ProtocolKind::Claim => seq!['C', 'l', 'a', 'i', 'm'],
        ProtocolKind::Other => seq!['I', 'n', 't', 'e', 'r', 'a', 'c', 't', 'i', 'o', 'n'],
    }
}

/// Different kinds of protocol action are shown by different words, so a
/// history line tells them apart (a borrow never reads as a repayment).
pub proof fn law_kind_labels_distinct(a: ProtocolKind, b: ProtocolKind)
    requires
        a != b,
    ensures
        kind_label_spec(a) != kind_label_spec(b),
{
    let la = kind_label_spec(a);
    let lb = kind_label_spec(b);
    if la == lb {
        assert(la.len() == lb.len());
        assert(la[0] == lb[0] && la[1] == lb[1] && la[2] == lb[2]);
    }
}

impl ProtocolKind {
    /// The word shown for this kind of protocol action.
    pub fn label(self) -> (r: &'static str)
        ensures
            r@ == kind_label_spec(self),
    {
        match self {
            ProtocolKind::Stake => {
                proof { reveal_strlit("Stake"); }
                "Stake"
            },
            ProtocolKind::Unstake => {
                proof { reveal_strlit("Unstake"); }
                "Unstake"
            },
            ProtocolKind::Wrap => {
                proof { reveal_strlit("Wrap"); }
                "Wrap"
            },
            ProtocolKind::Unwrap => {
                proof { reveal_strlit("Unwrap"); }
                "Unwrap"
            },
            ProtocolKind::Swap => {
                proof { reveal_strlit("Swap"); }
                "Swap"
            },
            ProtocolKind::Supply => {
                proof { reveal_strlit("Supply"); }
                "Supply"
            },
            ProtocolKind::Withdraw => {
                proof { reveal_strlit("Withdraw"); }
                "Withdraw"
            },
            ProtocolKind::Borrow => {
                proof { reveal_strlit("Borrow"); }
                "Borrow"
            },
            ProtocolKind::Repay => {
                proof { reveal_strlit("Repay"); }
                "Repay"
            },
            ProtocolKind::Bridge => {
                proof { reveal_strlit("Bridge"); }
                "Bridge"
            },
            ProtocolKind::Distribute => {
                proof { reveal_strlit("Distribute"); }
                "Distribute"
            },
            ProtocolKind::Claim => {
                proof { reveal_strlit("Claim"); }
                "Claim"
            },
            ProtocolKind::Other => {
                proof { reveal_strlit("Interaction"); }
                "Interaction"
            },
        }
    }
}

/// An amount of one asset; `token == None` is native ETH.
#[derive(Debug)]
pub struct AssetAmount {
    pub token: Option<Address>,
    pub symbol: String,
    pub decimals: u32,
    pub amount: U256,
}

pub struct AssetView {
    pub token: Option<Address>,
    pub symbol: Seq<char>,
    pub decimals: u32,
    pub amount: U256,
}

impl View for AssetAmount {
    type V = AssetView;

    open spec fn view(&self) -> AssetView {
        AssetView {
            token: self.token,
            symbol: self.symbol@,
            decimals: self.decimals,
            amount: self.amount,
        }
    }
}

#[derive(Debug)]
pub enum Action {
    NativeTransfer { direction: Direction, counterparty: Address, amount_wei: U256 },
    TokenTransfer {
        direction: Direction,
        counterparty: Address,
        token: Address,
        symbol: String,
        decimals: u32,
        amount: U256,
    },
    ContractCall { contract: Address },
    Protocol {
        protocol: &'static str,
        kind: ProtocolKind,
        contract: Address,
        sent: Vec<AssetAmount>,
        received: Vec<AssetAmount>,
    },
}

pub enum ActionView {
    NativeTransfer { direction: Direction, counterparty: Address, amount_wei: U256 },
    TokenTransfer {
        direction: Direction,
        counterparty: Address,
        token: Address,
        symbol: Seq<char>,
        decimals: u32,
        amount: U256,
    },
    ContractCall { contract: Address },
    Protocol {
        protocol: Seq<char>,
        kind: ProtocolKind,
        contract: Address,
        sent: Seq<AssetView>,
        received: Seq<AssetView>,
    },
}

pub open spec fn assets_view(v: Seq<AssetAmount>) -> Seq<AssetView> {
    v.map_values(|a: AssetAmount| a@)
}

impl View for Action {
    type V = ActionView;

    open spec fn view(&self) -> ActionView {
        match self {
            Action::NativeTransfer { direction, counterparty, amount_wei } => ActionView::NativeTransfer {
                direction: *direction,
                counterparty: *counterparty,
                amount_wei: *amount_wei,
            },
            Action::TokenTransfer { direction, counterparty, token, symbol, decimals, amount } =>
                ActionView::TokenTransfer {
                direction: *direction,
                counterparty: *counterparty,
                token: *token,
                symbol: symbol@,
                decimals: *decimals,
                amount: *amount,
            },
            Action::ContractCall { contract } => ActionView::ContractCall { contract: *contract },
            Action::Protocol { protocol, kind, contract, sent, received } => ActionView::Protocol {
                protocol: protocol@,
                kind: *kind,
                contract: *contract,
                sent: assets_view(sent@),
                received: assets_view(received@),
            },
        }
    }
}

pub open spec fn actions_view(v: Seq<Action>) -> Seq<ActionView> {
    v.map_values(|a: Action| a@)
}

pub open spec fn opt_actions_view(r: Option<Vec<Action>>) -> Option<Seq<ActionView>> {
    match r {
        Some(v) => Some(actions_view(v@)),
        None => None,
    }
}

/// One decoded transaction: its identity and the actions found in it.
#[derive(Debug)]
pub struct DecodedTx {
    pub chain_id: u64,
    pub hash: String,
    pub timestamp: u64,
    pub success: bool,
    pub actions: Vec<Action>,
}

pub struct DecodedView {
    pub chain_id: u64,
    pub hash: Seq<char>,
    pub timestamp: u64,
    pub success: bool,
    pub actions: Seq<ActionView>,
}

impl View for DecodedTx {
    type V = DecodedView;

    open spec fn view(&self) -> DecodedView {
        DecodedView {
            chain_id: self.chain_id,
            hash: self.hash@,
            timestamp: self.timestamp,
            success: self.success,
            actions: actions_view(self.actions@),
        }
    }
}

/// The direction of a transfer `from -> to` seen from `us`, if `us` is a
/// party to it.
pub open spec fn direction_spec(us: Address, from: Address, to: Address) -> Option<Direction> {
    if from == us && to == us {
        Some(Direction::SelfTransfer)
    } else if from == us {
        Some(Direction::Out)
    } else if to == us {
        Some(Direction::In)
    } else {
        None
    }
}

pub fn classify_direction(us: Address, from: Address, to: Address) -> (r: Option<Direction>)
    ensures
        r == direction_spec(us, from, to),
{
    let from_us = from == us;
    let to_us = to == us;
    if from_us && to_us {
        Some(Direction::SelfTransfer)
    } else if from_us {
        Some(Direction::Out)
    } else if to_us {
        Some(Direction::In)
    } else {
        None
    }
}

/// Static metadata: a contract address with a human label, scoped by chain.
#[derive(Clone, Copy, Debug)]
pub struct KnownContract {
    pub chain_id: u64,
    pub address: Address,
    pub label: &'static str,
}

impl View for KnownContract {
    type V = (u64, Address, Seq<char>);

    open spec fn view(&self) -> (u64, Address, Seq<char>) {
        (self.chain_id, self.address, self.label@)
    }
}

pub open spec fn known_view(v: Seq<KnownContract>) -> Seq<(u64, Address, Seq<char>)> {
    v.map_values(|k: KnownContract| k@)
}

/// A decoder for the contracts of one protocol.
pub trait ContractDecoder {
    /// The contracts this decoder labels.
    spec fn spec_known(&self) -> Seq<(u64, Address, Seq<char>)>;

    /// The actions this decoder finds in a transaction, or `None` when the
    /// transaction is not one of its protocol's.
    spec fn spec_decode(&self, us: Address, tx: RawTxView, ts: Seq<TransferView>) -> Option<
        Seq<ActionView>,
    >;

    fn known_contracts(&self) -> (r: Vec<KnownContract>)
        ensures
            known_view(r@) == self.spec_known(),
    ;

    fn decode(&self, us: Address, tx: &RawTx, transfers: &[RawTransfer]) -> (r: Option<Vec<Action>>)
        ensures
            opt_actions_view(r) == self.spec_decode(us, tx@, transfers_view(transfers@)),
    ;
}

pub use self::erc20::{transfers_view, RawTxView, TransferView};

/// The decoders the registry knows how to run.
#[derive(Clone, Copy, Debug, PartialEq, Eq, Structural)]
pub enum DecoderKind {
    Lido,
    AaveV3,
    Uniswap,
    Cowswap,
    Across,
    Splits,
}

pub open spec fn kind_decode_spec(k: DecoderKind, us: Address, tx: RawTxView, ts: Seq<TransferView>) -> Option<
    Seq<ActionView>,
> {
    match k {
        DecoderKind::Lido => lido::Lido.spec_decode(us, tx, ts),
        DecoderKind::AaveV3 => aave::AaveV3.spec_decode(us, tx, ts),
        DecoderKind::Uniswap => uniswap::Uniswap.spec_decode(us, tx, ts),
        DecoderKind::Cowswap => cowswap::Cowswap.spec_decode(us, tx, ts),
        DecoderKind::Across => across::Across.spec_decode(us, tx, ts),
        DecoderKind::Splits => splits::Splits.spec_decode(us, tx, ts),
    }
}

pub open spec fn kind_known_spec(k: DecoderKind) -> Seq<(u64, Address, Seq<char>)> {
    match k {
        DecoderKind::Lido => lido::Lido.spec_known(),
        DecoderKind::AaveV3 => aave::AaveV3.spec_known(),
        DecoderKind::Uniswap => uniswap::Uniswap.spec_known(),
        DecoderKind::Cowswap => cowswap::Cowswap.spec_known(),
        DecoderKind::Across => across::Across.spec_known(),
        DecoderKind::Splits => splits::Splits.spec_known(),
    }
}

impl ContractDecoder for DecoderKind {
    open spec fn spec_known(&self) -> Seq<(u64, Address, Seq<char>)> {
        kind_known_spec(*self)
    }

    open spec fn spec_decode(&self, us: Address, tx: RawTxView, ts: Seq<TransferView>) -> Option<
        Seq<ActionView>,
    > {
        kind_decode_spec(*self, us, tx, ts)
    }

    fn known_contracts(&self) -> (r: Vec<KnownContract>) {
        match self {
            DecoderKind::Lido => lido::Lido.known_contracts(),
            DecoderKind::AaveV3 => aave::AaveV3.known_contracts(),
            DecoderKind::Uniswap => uniswap::Uniswap.known_contracts(),
            DecoderKind::Cowswap => cowswap::Cowswap.known_contracts(),
            DecoderKind::Across => across::Across.known_contracts(),
            DecoderKind::Splits => splits::Splits.known_contracts(),
        }
    }

    fn decode(&self, us: Address, tx: &RawTx, transfers: &[RawTransfer]) -> (r: Option<Vec<Action>>) {
        match self {
            DecoderKind::Lido => lido::Lido.decode(us, tx, transfers),
            DecoderKind::AaveV3 => aave::AaveV3.decode(us, tx, transfers),
            DecoderKind::Uniswap => uniswap::Uniswap.decode(us, tx, transfers),
            DecoderKind::Cowswap => cowswap::Cowswap.decode(us, tx, transfers),
            DecoderKind::Across => across::Across.decode(us, tx, transfers),
            DecoderKind::Splits => splits::Splits.decode(us, tx, transfers),
        }
    }
}

/// The decoders in the order the registry tries them.
pub struct Registry {
    decoders: Vec<DecoderKind>,
}

/// The decoded form of `tx`: the actions of the first decoder in `ks` that
/// recognises it, else the generic native/ERC-20 synthesis.
pub open spec fn registry_decode_spec(
    ks: Seq<DecoderKind>,
    us: Address,
    tx: RawTxView,
    ts: Seq<TransferView>,
) -> DecodedView
    decreases ks.len(),
{
    if ks.len() == 0 {
        erc20::synthesize_spec(us, tx, ts)
    } else {
        match kind_decode_spec(ks[0], us, tx, ts) {
            Some(actions) => DecodedView {
                chain_id: tx.chain_id,
                hash: tx.hash,
                timestamp: tx.timestamp,
                success: tx.success,
                actions,
            },
            None => registry_decode_spec(ks.drop_first(), us, tx, ts),
        }
    }
}

/// The labels of all decoders in `ks`, in order.
pub open spec fn registry_known_spec(ks: Seq<DecoderKind>) -> Seq<(u64, Address, Seq<char>)>
    decreases ks.len(),
{
    if ks.len() == 0 {
        seq![]
    } else {
        registry_known_spec(ks.drop_last()) + kind_known_spec(ks.last())
    }
}

pub open spec fn default_decoders() -> Seq<DecoderKind> {
    seq![
        DecoderKind::Lido,
        DecoderKind::AaveV3,
        DecoderKind::Uniswap,
        DecoderKind::Cowswap,
        DecoderKind::Across,
        DecoderKind::Splits,
    ]
}

impl View for Registry {
    type V = Seq<DecoderKind>;

    closed spec fn view(&self) -> Seq<DecoderKind> {
        self.decoders@
    }
}

impl Registry {
    /// All six protocol decoders: Lido, AAVE v3, Uniswap, CoW, Across, 0xSplits.
    pub fn default_set() -> (r: Registry)
        ensures
            r@ == default_decoders(),
    {
        let mut r = Registry { decoders: Vec::new() };
        r.register(DecoderKind::Lido);
        r.register(DecoderKind::AaveV3);
        r.register(DecoderKind::Uniswap);
        r.register(DecoderKind::Cowswap);
        r.register(DecoderKind::Across);
        r.register(DecoderKind::Splits);
        assert(r@ =~= default_decoders());
        r
    }

    /// Adds a decoder after the existing ones.
    pub fn register(&mut self, d: DecoderKind)
        ensures
            final(self)@ == old(self)@.push(d),
    {
        self.decoders.push(d);
    }

    /// The labelled contracts of every decoder, in registration order.
    pub fn known_labels(&self) -> (r: Vec<KnownContract>)
        ensures
            known_view(r@) == registry_known_spec(self@),
    {
        let mut out: Vec<KnownContract> = Vec::new();
        let mut i: usize = 0;
        while i < self.decoders.len()
            invariant
                i <= self@.len(),
                known_view(out@) == registry_known_spec(self@.take(i as int)),
            decreases self@.len() - i,
        {
            let d = self.decoders[i];
            let ks = d.known_contracts();
            let ghost before = out@;
            let mut j: usize = 0;
            while j < ks.len()
                invariant
                    j <= ks@.len(),
                    out@ == before + ks@.take(j as int),
                decreases ks@.len() - j,
            {
                out.push(ks[j]);
                j = j + 1;
                assert(out@ =~= before + ks@.take(j as int));
            }
            proof {
                assert(ks@.take(ks@.len() as int) =~= ks@);
                assert(self@.take(i + 1).drop_last() =~= self@.take(i as int));
                assert(known_view(before + ks@) =~= known_view(before) + known_view(ks@));
            }
            i = i + 1;
        }
        assert(self@.take(self@.len() as int) =~= self@);
        out
    }

    /// Decodes `tx` with the first decoder that recognises it, falling back
    /// to plain native/ERC-20 transfers.
    pub fn decode_tx(&self, us: Address, tx: &RawTx, transfers: &[RawTransfer]) -> (r: DecodedTx)
        ensures
            r@ == registry_decode_spec(self@, us, tx@, transfers_view(transfers@)),
    {
        let mut i: usize = 0;
        assert(self@.skip(0) =~= self@);
        while i < self.decoders.len()
            invariant
                i <= self@.len(),
                registry_decode_spec(self@, us, tx@, transfers_view(transfers@))
                    == registry_decode_spec(self@.skip(i as int), us, tx@, transfers_view(transfers@)),
            decreases self@.len() - i,
        {
            let d = self.decoders[i];
            let ghost rest = self@.skip(i as int);
            assert(rest[0] == d);
            assert(rest.drop_first() =~= self@.skip(i + 1));
            if let Some(actions) = d.decode(us, tx, transfers) {
                let hash = tx.hash.clone();
                return DecodedTx {
                    chain_id: tx.chain_id,
                    hash,
                    timestamp: tx.timestamp,
                    success: tx.success,
                    actions,
                };
            }
            i = i + 1;
        }
        assert(self@.skip(i as int) =~= Seq::<DecoderKind>::empty());
        erc20::synthesize(us, tx, transfers)
    }
}

// ---------------------------------------------------------------------------
// Shared helpers for the decoders
// ---------------------------------------------------------------------------

pub open spec fn asset_of_transfer(t: TransferView) -> AssetView {
    AssetView { token: Some(t.token), symbol: t.symbol, decimals: t.decimals, amount: t.amount }
}

/// The transfers that reach `us` from someone else, as assets, in order.
pub open spec fn inbound_spec(us: Address, ts: Seq<TransferView>) -> Seq<AssetView>
    decreases ts.len(),
{
    if ts.len() == 0 {
        seq![]
    } else {
        let rest = inbound_spec(us, ts.drop_last());
        let t = ts.last();
        if t.to == us && t.from != us {
            rest.push(asset_of_transfer(t))
        } else {
            rest
        }
    }
}

/// The transfers that leave `us` for someone else, as assets, in order.
pub open spec fn outbound_spec(us: Address, ts: Seq<TransferView>) -> Seq<AssetView>
    decreases ts.len(),
{
    if ts.len() == 0 {
        seq![]
    } else {
        let rest = outbound_spec(us, ts.drop_last());
        let t = ts.last();
        if t.from == us && t.to != us {
            rest.push(asset_of_transfer(t))
        } else {
            rest
        }
    }
}

/// A transfer reaching `us` from someone else is among the inbound assets.
pub proof fn lemma_inbound_has(us: Address, ts: Seq<TransferView>, i: int)
    requires
        0 <= i < ts.len(),
        ts[i].to == us,
        ts[i].from != us,
    ensures
        exists|j: int| 0 <= j < inbound_spec(us, ts).len() && inbound_spec(us, ts)[j] == asset_of_transfer(ts[i]),
    decreases ts.len(),
{
    let r = inbound_spec(us, ts.drop_last());
    if i == ts.len() - 1 {
        assert(inbound_spec(us, ts)[r.len() as int] == asset_of_transfer(ts[i]));
    } else {
        lemma_inbound_has(us, ts.drop_last(), i);
        let j = choose|j: int| 0 <= j < r.len() && r[j] == asset_of_transfer(ts.drop_last()[i]);
        assert(inbound_spec(us, ts)[j] == r[j]);
    }
}

/// Each inbound asset comes from a transfer reaching `us` from someone else.
pub proof fn lemma_inbound_from(us: Address, ts: Seq<TransferView>, j: int)
    requires
        0 <= j < inbound_spec(us, ts).len(),
    ensures
        exists|i: int|
            0 <= i < ts.len() && ts[i].to == us && ts[i].from != us && inbound_spec(us, ts)[j] == asset_of_transfer(
                #[trigger] ts[i],
            ),
    decreases ts.len(),
{
    let r = inbound_spec(us, ts.drop_last());
    if j < r.len() {
        lemma_inbound_from(us, ts.drop_last(), j);
        let i = choose|i: int|
            0 <= i < ts.drop_last().len() && ts.drop_last()[i].to == us && ts.drop_last()[i].from != us && r[j]
                == asset_of_transfer(#[trigger] ts.drop_last()[i]);
        assert(ts[i] == ts.drop_last()[i]);
    } else {
        assert(inbound_spec(us, ts)[j] == asset_of_transfer(ts[ts.len() - 1]));
    }
}

/// Each outbound asset comes from a transfer leaving `us` for someone else.
pub proof fn lemma_outbound_from(us: Address, ts: Seq<TransferView>, j: int)
    requires
        0 <= j < outbound_spec(us, ts).len(),
    ensures
        exists|i: int|
            0 <= i < ts.len() && ts[i].from == us && ts[i].to != us && outbound_spec(us, ts)[j] == asset_of_transfer(
                #[trigger] ts[i],
            ),
    decreases ts.len(),
{
    let r = outbound_spec(us, ts.drop_last());
    if j < r.len() {
        lemma_outbound_from(us, ts.drop_last(), j);
        let i = choose|i: int|
            0 <= i < ts.drop_last().len() && ts.drop_last()[i].from == us && ts.drop_last()[i].to != us && r[j]
                == asset_of_transfer(#[trigger] ts.drop_last()[i]);
        assert(ts[i] == ts.drop_last()[i]);
    } else {
        assert(outbound_spec(us, ts)[j] == asset_of_transfer(ts[ts.len() - 1]));
    }
}

/// With no transfer leaving `us`, nothing is outbound.
pub proof fn lemma_outbound_none(us: Address, ts: Seq<TransferView>)
    requires
        forall|i: int| 0 <= i < ts.len() ==> !(#[trigger] ts[i].from == us && ts[i].to != us),
    ensures
        outbound_spec(us, ts).len() == 0,
    decreases ts.len(),
{
    if ts.len() > 0 {
        assert forall|i: int| 0 <= i < ts.drop_last().len() implies !(#[trigger] ts.drop_last()[i].from == us
            && ts.drop_last()[i].to != us) by {
            assert(ts.drop_last()[i] == ts[i]);
        }
        lemma_outbound_none(us, ts.drop_last());
        assert(!(ts[ts.len() - 1].from == us && ts[ts.len() - 1].to != us));
    }
}

fn asset_from_transfer(t: &RawTransfer) -> (a: AssetAmount)
    ensures
        a@ == asset_of_transfer(t@),
{
    AssetAmount {
        token: Some(t.token),
        symbol: t.symbol.clone(),
        decimals: t.decimals,
        amount: t.amount,
    }
}

/// Inbound transfers (`us` is the receiver, not the sender) as assets.
pub fn inbound_assets(us: Address, transfers: &[RawTransfer]) -> (r: Vec<AssetAmount>)
    ensures
        assets_view(r@) == inbound_spec(us, transfers_view(transfers@)),
{
    let ghost tv = transfers_view(transfers@);
    let mut r: Vec<AssetAmount> = Vec::new();
    let mut i: usize = 0;
    while i < transfers.len()
        invariant
            i <= transfers@.len(),
            tv == transfers_view(transfers@),
            assets_view(r@) == inbound_spec(us, tv.take(i as int)),
        decreases transfers@.len() - i,
    {
        let t = &transfers[i];
        proof {
            assert(tv.take(i + 1).drop_last() =~= tv.take(i as int));
            assert(tv.take(i + 1).last() == t@);
        }
        if t.to == us && t.from != us {
            let a = asset_from_transfer(t);
            let ghost prev = r@;
            r.push(a);
            assert(assets_view(r@) =~= assets_view(prev).push(a@));
        }
        i = i + 1;
    }
    assert(tv.take(transfers@.len() as int) =~= tv);
    r
}

/// Outbound transfers (`us` is the sender, not the receiver) as assets.
pub fn outbound_assets(us: Address, transfers: &[RawTransfer]) -> (r: Vec<AssetAmount>)
    ensures
        assets_view(r@) == outbound_spec(us, transfers_view(transfers@)),
{
    let ghost tv = transfers_view(transfers@);
    let mut r: Vec<AssetAmount> = Vec::new();
    let mut i: usize = 0;
    while i < transfers.len()
        invariant
            i <= transfers@.len(),
            tv == transfers_view(transfers@),
            assets_view(r@) == outbound_spec(us, tv.take(i as int)),
        decreases transfers@.len() - i,
    {
        let t = &transfers[i];
        proof {
            assert(tv.take(i + 1).drop_last() =~= tv.take(i as int));
            assert(tv.take(i + 1).last() == t@);
        }
        if t.from == us && t.to != us {
            let a = asset_from_transfer(t);
            let ghost prev = r@;
            r.push(a);
            assert(assets_view(r@) =~= assets_view(prev).push(a@));
        }
        i = i + 1;
    }
    assert(tv.take(transfers@.len() as int) =~= tv);
    r
}

/// Some asset in `v` is the token `tok`.
pub open spec fn has_token(v: Seq<AssetView>, tok: Address) -> bool {
    exists|i: int| 0 <= i < v.len() && #[trigger] v[i].token == Some(tok)
}

pub fn any_token(v: &Vec<AssetAmount>, tok: Address) -> (b: bool)
    ensures
        b == has_token(assets_view(v@), tok),
{
    let mut i: usize = 0;
    while i < v.len()
        invariant
            i <= v@.len(),
            forall|k: int| 0 <= k < i ==> #[trigger] v@[k].token != Some(tok),
        decreases v@.len() - i,
    {
        if v[i].token == Some(tok) {
            assert(assets_view(v@)[i as int].token == Some(tok));
            return true;
        }
        i = i + 1;
    }
    assert forall|k: int| 0 <= k < assets_view(v@).len() implies #[trigger] assets_view(v@)[k].token != Some(tok) by {
        assert(assets_view(v@)[k] == v@[k]@);
    }
    false
}

pub open spec fn eth_symbol() -> Seq<char> {
    seq!['E', 'T', 'H']
}

/// Native ETH of the given amount, as an asset.
pub open spec fn eth_asset(amount: U256) -> AssetView {
    AssetView { token: None, symbol: eth_symbol(), decimals: 18, amount }
}

pub fn eth_amount(amount: U256) -> (a: AssetAmount)
    ensures
        a@ == eth_asset(amount),
{
    proof {
        reveal_strlit("ETH");
    }
    let sym = string_of(&chars_of("ETH"));
    assert(sym@ =~= eth_symbol());
    AssetAmount { token: None, symbol: sym, decimals: 18, amount }
}

/// The ETH `us` sent as the transaction's value, if any.
pub open spec fn native_sent_spec(us: Address, tx: RawTxView) -> Option<AssetView> {
    if tx.from == us && tx.value_wei@ != 0 {
        Some(eth_asset(tx.value_wei))
    } else {
        None
    }
}

pub fn native_sent(us: Address, tx: &RawTx) -> (r: Option<AssetAmount>)
    ensures
        opt_asset_view(r) == native_sent_spec(us, tx@),
{
    if tx.from == us && !tx.value_wei.is_zero() {
        Some(eth_amount(tx.value_wei))
    } else {
        None
    }
}

pub open spec fn opt_asset_view(r: Option<AssetAmount>) -> Option<AssetView> {
    match r {
        Some(a) => Some(a@),
        None => None,
    }
}

/// Whether an internal call counts as ETH received by `us`.
pub open spec fn receives_native(us: Address, it: InternalTx) -> bool {
    it.success && it.to == us && it.from != us && it.value_wei@ != 0
}

/// The running total (modulo 2^256, as U256 `+=` wraps) of ETH reaching
/// `us` through successful internal calls.
pub open spec fn received_total(us: Address, its: Seq<InternalTx>) -> nat
    decreases its.len(),
{
    if its.len() == 0 {
        0
    } else {
        let it = its.last();
        let rest = received_total(us, its.drop_last());
        if receives_native(us, it) {
            (rest + it.value_wei@) % u256_modulus()
        } else {
            rest
        }
    }
}

/// ETH received through internal calls, if the total is not zero.
pub open spec fn native_received_spec(us: Address, tx: RawTxView) -> Option<AssetView> {
    let total = received_total(us, tx.internals);
    if total == 0 {
        None
    } else {
        Some(eth_asset(crate::primitives::u256_of_value(total)))
    }
}

pub fn native_received(us: Address, tx: &RawTx) -> (r: Option<AssetAmount>)
    ensures
        opt_asset_view(r) == native_received_spec(us, tx@),
{
    let mut total = U256::zero();
    let mut i: usize = 0;
    while i < tx.internals.len()
        invariant
            i <= tx.internals@.len(),
            total@ == received_total(us, tx.internals@.take(i as int)),
        decreases tx.internals@.len() - i,
    {
        let it = tx.internals[i];
        proof {
            assert(tx.internals@.take(i + 1).drop_last() =~= tx.internals@.take(i as int));
        }
        if it.success && it.to == us && it.from != us && !it.value_wei.is_zero() {
            total = u256_add(total, it.value_wei);
        }
        i = i + 1;
    }
    assert(tx.internals@.take(tx.internals@.len() as int) =~= tx.internals@);
    proof {
        crate::primitives::lemma_u256_bounds(total);
        crate::primitives::lemma_u256_of_value(total@);
        lemma_u256_value_injective(total, crate::primitives::u256_of_value(total@));
    }
    if total.is_zero() {
        None
    } else {
        Some(eth_amount(total))
    }
}

/// Two `U256` with the same value are the same.
pub proof fn lemma_u256_value_injective(a: U256, b: U256)
    requires
        a@ == b@,
    ensures
        a == b,
{
    crate::primitives::lemma_u256_of_value_self(a);
    crate::primitives::lemma_u256_of_value_self(b);
}

} // verus!
