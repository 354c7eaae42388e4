//! The hardcoded ERC-20 registry: the token deployments the tracker trusts,
//! keyed by the whitelist id the user configures.

use vstd::prelude::*;

use crate::primitives::Address;
use crate::text::str_eq;

verus! {

/// One ERC-20 deployment we may read balances from. `whitelist_id` is the
/// logical name used in the whitelist; `display_symbol` is what tables show
/// (bridged tokens may carry another symbol, e.g. `USDT0` on Arbitrum).
#[derive(Debug, Clone, Copy)]
pub struct WhitelistedToken {
    pub whitelist_id: &'static str,
    pub chain_id: u64,
    pub address: Address,
    pub display_symbol: &'static str,
    pub decimals: u8,
}

#[verifier::ext_equal]
pub struct TokenView {
    pub whitelist_id: Seq<char>,
    pub chain_id: u64,
    pub address: Address,
    pub display_symbol: Seq<char>,
    pub decimals: u8,
}

impl View for WhitelistedToken {
    type V = TokenView;

    open spec fn view(&self) -> TokenView {
        TokenView {
            whitelist_id: self.whitelist_id@,
            chain_id: self.chain_id,
            address: self.address,
            display_symbol: self.display_symbol@,
            decimals: self.decimals,
        }
    }
}

pub open spec fn tokens_view(v: Seq<WhitelistedToken>) -> Seq<TokenView> {
    v.map_values(|t: WhitelistedToken| t@)
}

/// The registry, in order.
pub open spec fn registry_spec() -> Seq<TokenView> {
    seq![
        TokenView { whitelist_id: seq!['U', 'S', 'D', 'C'], chain_id: 1, address: Address { hi: 0xa0b86991, mid: 0xc6218b36c1d19d4a, lo: 0x2e9eb0ce3606eb48 }, display_symbol: seq!['U', 'S', 'D', 'C'], decimals: 6 },
        TokenView { whitelist_id: seq!['U', 'S', 'D', 'T'], chain_id: 1, address: Address { hi: 0xdac17f95, mid: 0x8d2ee523a2206206, lo: 0x994597c13d831ec7 }, display_symbol: seq!['U', 'S', 'D', 'T'], decimals: 6 },
        TokenView { whitelist_id: seq!['A', 'R', 'B'], chain_id: 1, address: Address { hi: 0xb50721bc, mid: 0xf8d664c30412cfbc, lo: 0x6cf7a15145234ad1 }, display_symbol: seq!['A', 'R', 'B'], decimals: 18 },
        TokenView { whitelist_id: seq!['D', 'A', 'I'], chain_id: 1, address: Address { hi: 0x6b175474, mid: 0xe89094c44da98b95, lo: 0x4eedeac495271d0f }, display_symbol: seq!['D', 'A', 'I'], decimals: 18 },
        TokenView { whitelist_id: seq!['U', 'S', 'D', 'C'], chain_id: 42161, address: Address { hi: 0xaf88d065, mid: 0xe77c8cc2239327c5, lo: 0xedb3a432268e5831 }, display_symbol: seq!['U', 'S', 'D', 'C'], decimals: 6 },
        TokenView { whitelist_id: seq!['U', 'S', 'D', 'C'], chain_id: 42161, address: Address { hi: 0xff970a61, mid: 0xa04b1ca14834a43f, lo: 0x5de4533ebddb5cc8 }, display_symbol: seq!['U', 'S', 'D', 'C', '.', 'e'], decimals: 6 },
        TokenView { whitelist_id: seq!['U', 'S', 'D', 'T'], chain_id: 42161, address: Address { hi: 0xfd086bc7, mid: 0xcd5c481dcc9c85eb, lo: 0xe478a1c0b69fcbb9 }, display_symbol: seq!['U', 'S', 'D', 'T', '0'], decimals: 6 },
        TokenView { whitelist_id: seq!['A', 'R', 'B'], chain_id: 42161, address: Address { hi: 0x912ce591, mid: 0x44191c1204e64559, lo: 0xfe8253a0e49e6548 }, display_symbol: seq!['A', 'R', 'B'], decimals: 18 },
        TokenView { whitelist_id: seq!['D', 'A', 'I'], chain_id: 42161, address: Address { hi: 0xda10009c, mid: 0xbd5d07dd0cecc661, lo: 0x61fc93d7c9000da1 }, display_symbol: seq!['D', 'A', 'I'], decimals: 18 },
        TokenView { whitelist_id: seq!['E', 'I', 'G', 'E', 'N'], chain_id: 1, address: Address { hi: 0xec53bf91, mid: 0x67f50cdeb3ae105f, lo: 0x56099aaab9061f83 }, display_symbol: seq!['E', 'I', 'G', 'E', 'N'], decimals: 18 },
        TokenView { whitelist_id: seq!['P', 'U', 'F', 'F', 'E', 'R'], chain_id: 1, address: Address { hi: 0x4d1c297d, mid: 0x39c5c1277964d0e3, lo: 0xf8aa901493664530 }, display_symbol: seq!['P', 'U', 'F', 'F', 'E', 'R'], decimals: 18 },
        TokenView { whitelist_id: seq!['S', 'A', 'F', 'E'], chain_id: 1, address: Address { hi: 0x5afe3855, mid: 0x358e112b5647b952, lo: 0x709e6165e1c1eeee }, display_symbol: seq!['S', 'A', 'F', 'E'], decimals: 18 },
        TokenView { whitelist_id: seq!['E', 'T', 'H', 'F', 'I'], chain_id: 1, address: Address { hi: 0xfe0c3006, mid: 0x5b384f05761f15d0, lo: 0xcc899d4f9f9cc0eb }, display_symbol: seq!['E', 'T', 'H', 'F', 'I'], decimals: 18 },
        TokenView { whitelist_id: seq!['S', 'T', 'R', 'K'], chain_id: 1, address: Address { hi: 0xca14007e, mid: 0xff0db1f8135f4c25, lo: 0xb34de49ab0d42766 }, display_symbol: seq!['S', 'T', 'R', 'K'], decimals: 18 },
    ]
}

/// Every trusted deployment, in registry order.
pub fn registry() -> (r: Vec<WhitelistedToken>)
    ensures
        tokens_view(r@) == registry_spec(),
{
    proof {
        reveal_strlit("ARB");
        reveal_strlit("DAI");
        reveal_strlit("EIGEN");
        reveal_strlit("ETHFI");
        reveal_strlit("PUFFER");
        reveal_strlit("SAFE");
        reveal_strlit("STRK");
        reveal_strlit("USDC");
        reveal_strlit("USDC.e");
        reveal_strlit("USDT");
        reveal_strlit("USDT0");
    }
    let r = vec![
        WhitelistedToken { whitelist_id: "USDC", chain_id: 1, address: Address { hi: 0xa0b86991, mid: 0xc6218b36c1d19d4a, lo: 0x2e9eb0ce3606eb48 }, display_symbol: "USDC", decimals: 6 },
        WhitelistedToken { whitelist_id: "USDT", chain_id: 1, address: Address { hi: 0xdac17f95, mid: 0x8d2ee523a2206206, lo: 0x994597c13d831ec7 }, display_symbol: "USDT", decimals: 6 },
        WhitelistedToken { whitelist_id: "ARB", chain_id: 1, address: Address { hi: 0xb50721bc, mid: 0xf8d664c30412cfbc, lo: 0x6cf7a15145234ad1 }, display_symbol: "ARB", decimals: 18 },
        WhitelistedToken { whitelist_id: "DAI", chain_id: 1, address: Address { hi: 0x6b175474, mid: 0xe89094c44da98b95, lo: 0x4eedeac495271d0f }, display_symbol: "DAI", decimals: 18 },
        WhitelistedToken { whitelist_id: "USDC", chain_id: 42161, address: Address { hi: 0xaf88d065, mid: 0xe77c8cc2239327c5, lo: 0xedb3a432268e5831 }, display_symbol: "USDC", decimals: 6 },
        WhitelistedToken { whitelist_id: "USDC", chain_id: 42161, address: Address { hi: 0xff970a61, mid: 0xa04b1ca14834a43f, lo: 0x5de4533ebddb5cc8 }, display_symbol: "USDC.e", decimals: 6 },
        WhitelistedToken { whitelist_id: "USDT", chain_id: 42161, address: Address { hi: 0xfd086bc7, mid: 0xcd5c481dcc9c85eb, lo: 0xe478a1c0b69fcbb9 }, display_symbol: "USDT0", decimals: 6 },
        WhitelistedToken { whitelist_id: "ARB", chain_id: 42161, address: Address { hi: 0x912ce591, mid: 0x44191c1204e64559, lo: 0xfe8253a0e49e6548 }, display_symbol: "ARB", decimals: 18 },
        WhitelistedToken { whitelist_id: "DAI", chain_id: 42161, address: Address { hi: 0xda10009c, mid: 0xbd5d07dd0cecc661, lo: 0x61fc93d7c9000da1 }, display_symbol: "DAI", decimals: 18 },
        WhitelistedToken { whitelist_id: "EIGEN", chain_id: 1, address: Address { hi: 0xec53bf91, mid: 0x67f50cdeb3ae105f, lo: 0x56099aaab9061f83 }, display_symbol: "EIGEN", decimals: 18 },
        WhitelistedToken { whitelist_id: "PUFFER", chain_id: 1, address: Address { hi: 0x4d1c297d, mid: 0x39c5c1277964d0e3, lo: 0xf8aa901493664530 }, display_symbol: "PUFFER", decimals: 18 },
        WhitelistedToken { whitelist_id: "SAFE", chain_id: 1, address: Address { hi: 0x5afe3855, mid: 0x358e112b5647b952, lo: 0x709e6165e1c1eeee }, display_symbol: "SAFE", decimals: 18 },
        WhitelistedToken { whitelist_id: "ETHFI", chain_id: 1, address: Address { hi: 0xfe0c3006, mid: 0x5b384f05761f15d0, lo: 0xcc899d4f9f9cc0eb }, display_symbol: "ETHFI", decimals: 18 },
        WhitelistedToken { whitelist_id: "STRK", chain_id: 1, address: Address { hi: 0xca14007e, mid: 0xff0db1f8135f4c25, lo: 0xb34de49ab0d42766 }, display_symbol: "STRK", decimals: 18 },
    ];
    assert(tokens_view(r@) =~~= registry_spec());
    r
}

/// `id` is one of the whitelist entries.
pub open spec fn listed(whitelist: Seq<Seq<char>>, id: Seq<char>) -> bool {
    exists|i: int| 0 <= i < whitelist.len() && #[trigger] whitelist[i] == id
}

pub open spec fn strings_view(v: Seq<String>) -> Seq<Seq<char>> {
    v.map_values(|s: String| s@)
}

/// Whether `id` appears in the whitelist.
pub fn is_listed(whitelist: &[String], id: &str) -> (b: bool)
    ensures
        b == listed(strings_view(whitelist@), id@),
{
    let ghost wv = strings_view(whitelist@);
    let mut i: usize = 0;
    while i < whitelist.len()
        invariant
            i <= whitelist@.len(),
            wv == strings_view(whitelist@),
            forall|k: int| 0 <= k < i ==> #[trigger] wv[k] != id@,
        decreases whitelist@.len() - i,
    {
        assert(wv[i as int] == whitelist@[i as int]@);
        if str_eq(whitelist[i].as_str(), id) {
            return true;
        }
        i = i + 1;
    }
    false
}

/// The registry entries on `chain_id` whose id is whitelisted, in order.
pub open spec fn deployments_spec(chain_id: u64, wl: Seq<Seq<char>>, reg: Seq<TokenView>) -> Seq<TokenView>
    decreases reg.len(),
{
    if reg.len() == 0 {
        seq![]
    } else {
        let rest = deployments_spec(chain_id, wl, reg.drop_last());
        let t = reg.last();
        if t.chain_id == chain_id && listed(wl, t.whitelist_id) {
            rest.push(t)
        } else {
            rest
        }
    }
}

/// The deployments on `chain_id` whose whitelist id is in `whitelist`.
pub fn deployments_for(chain_id: u64, whitelist: &[String]) -> (r: Vec<WhitelistedToken>)
    ensures
        tokens_view(r@) == deployments_spec(chain_id, strings_view(whitelist@), registry_spec()),
{
    let reg = registry();
    let ghost rv = tokens_view(reg@);
    let mut out: Vec<WhitelistedToken> = Vec::new();
    let mut i: usize = 0;
    while i < reg.len()
        invariant
            i <= reg@.len(),
            rv == tokens_view(reg@),
            rv == registry_spec(),
            tokens_view(out@) == deployments_spec(chain_id, strings_view(whitelist@), rv.take(i as int)),
        decreases reg@.len() - i,
    {
        let t = reg[i];
        proof {
            assert(rv.take(i + 1).drop_last() =~= rv.take(i as int));
            assert(rv.take(i + 1).last() == t@);
        }
        if t.chain_id == chain_id && is_listed(whitelist, t.whitelist_id) {
            let ghost prev = out@;
            out.push(t);
            assert(tokens_view(out@) =~= tokens_view(prev).push(t@));
        }
        i = i + 1;
    }
    assert(rv.take(reg@.len() as int) =~= rv);
    out
}

/// `(chain_id, address, display_symbol)` of each whitelisted entry, in order.
pub open spec fn whitelist_labels_spec(wl: Seq<Seq<char>>, reg: Seq<TokenView>) -> Seq<(u64, Address, Seq<char>)>
    decreases reg.len(),
{
    if reg.len() == 0 {
        seq![]
    } else {
        let rest = whitelist_labels_spec(wl, reg.drop_last());
        let t = reg.last();
        if listed(wl, t.whitelist_id) {
            rest.push((t.chain_id, t.address, t.display_symbol))
        } else {
            rest
        }
    }
}

pub open spec fn labels_view(v: Seq<(u64, Address, &'static str)>) -> Seq<(u64, Address, Seq<char>)> {
    v.map_values(|x: (u64, Address, &'static str)| (x.0, x.1, x.2@))
}

/// The labels the whitelist implies: every registry deployment whose id is
/// whitelisted, as `(chain_id, address, display_symbol)`.
pub fn whitelist_labels(whitelist: &[String]) -> (r: Vec<(u64, Address, &'static str)>)
    ensures
        labels_view(r@) == whitelist_labels_spec(strings_view(whitelist@), registry_spec()),
{
    let reg = registry();
    let ghost rv = tokens_view(reg@);
    let mut out: Vec<(u64, Address, &'static str)> = Vec::new();
    let mut i: usize = 0;
    while i < reg.len()
        invariant
            i <= reg@.len(),
            rv == tokens_view(reg@),
            rv == registry_spec(),
            labels_view(out@) == whitelist_labels_spec(strings_view(whitelist@), rv.take(i as int)),
        decreases reg@.len() - i,
    {
        let t = reg[i];
        proof {
            assert(rv.take(i + 1).drop_last() =~= rv.take(i as int));
            assert(rv.take(i + 1).last() == t@);
        }
        if is_listed(whitelist, t.whitelist_id) {
            let ghost prev = out@;
            out.push((t.chain_id, t.address, t.display_symbol));
            assert(labels_view(out@) =~= labels_view(prev).push((t.chain_id, t.address, t.display_symbol@)));
        }
        i = i + 1;
    }
    assert(rv.take(reg@.len() as int) =~= rv);
    out
}

/// The display symbol of the first registry entry at `(chain_id, addr)`.
pub open spec fn trusted_symbol_spec(chain_id: u64, addr: Address, reg: Seq<TokenView>) -> Option<Seq<char>>
    decreases reg.len(),
{
    if reg.len() == 0 {
        None
    } else if reg[0].chain_id == chain_id && reg[0].address == addr {
        Some(reg[0].display_symbol)
    } else {
        trusted_symbol_spec(chain_id, addr, reg.drop_first())
    }
}

/// The canonical symbol of a token if, and only if, `(chain_id, addr)` is in
/// the registry; an on-chain `symbol()` is never trusted.
pub fn trusted_symbol_for(chain_id: u64, addr: Address) -> (r: Option<&'static str>)
    ensures
        match r {
            Some(s) => trusted_symbol_spec(chain_id, addr, registry_spec()) == Some(s@),
            None => trusted_symbol_spec(chain_id, addr, registry_spec()) is None,
        },
{
    let reg = registry();
    let ghost rv = tokens_view(reg@);
    let mut i: usize = 0;
    assert(rv.skip(0) =~= rv);
    while i < reg.len()
        invariant
            i <= reg@.len(),
            rv == tokens_view(reg@),
            rv == registry_spec(),
            trusted_symbol_spec(chain_id, addr, rv) == trusted_symbol_spec(chain_id, addr, rv.skip(i as int)),
        decreases reg@.len() - i,
    {
        let t = reg[i];
        proof {
            assert(rv.skip(i as int)[0] == t@);
            assert(rv.skip(i as int).drop_first() =~= rv.skip(i + 1));
        }
        if t.chain_id == chain_id && t.address == addr {
            return Some(t.display_symbol);
        }
        i = i + 1;
    }
    None
}

/// A pair is trusted exactly when it is in the registry.
pub proof fn law_trusted_iff_registered(chain_id: u64, addr: Address, reg: Seq<TokenView>)
    ensures
        trusted_symbol_spec(chain_id, addr, reg) is Some <==> exists|i: int|
            0 <= i < reg.len() && #[trigger] reg[i].chain_id == chain_id && reg[i].address == addr,
    decreases reg.len(),
{
    if reg.len() > 0 {
        law_trusted_iff_registered(chain_id, addr, reg.drop_first());
        if trusted_symbol_spec(chain_id, addr, reg.drop_first()) is Some {
            let j = choose|j: int| 0 <= j < reg.drop_first().len() && #[trigger] reg.drop_first()[j].chain_id == chain_id && reg.drop_first()[j].address == addr;
            assert(reg[j + 1] == reg.drop_first()[j]);
        }
        if exists|i: int| 0 <= i < reg.len() && #[trigger] reg[i].chain_id == chain_id && reg[i].address == addr {
            let i = choose|i: int| 0 <= i < reg.len() && #[trigger] reg[i].chain_id == chain_id && reg[i].address == addr;
            if i > 0 {
                assert(reg.drop_first()[i - 1] == reg[i]);
            }
        }
    }
}

} // verus!
