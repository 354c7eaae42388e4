//! USD prices from CoinGecko: which coin ids the displayed symbols map to
//! and the query asking for them.

use vstd::prelude::*;

use crate::keyed::{as_keyed, key_lower_bound, lemma_set_insert_sorted, set_insert, strs_sorted};
use crate::text::{chars_of, push_text, str_eq, string_of};
use crate::tokens::{registry_spec, strings_view, TokenView};

verus! {

/// Displayed symbols and the CoinGecko coin id each one is priced by.
pub open spec fn symbol_ids() -> Seq<(Seq<char>, Seq<char>)> {
    seq![
        ("ETH"@, "ethereum"@),
        ("stETH"@, "staked-ether"@),
        ("USDC"@, "usd-coin"@),
        ("USDC.e"@, "usd-coin"@),
        ("USDT"@, "tether"@),
        ("USDT0"@, "tether"@),
        ("ARB"@, "arbitrum"@),
        ("DAI"@, "dai"@),
    ]
}

/// The coin id of the first entry for `symbol`.
pub open spec fn coin_id_spec(symbol: Seq<char>) -> Option<Seq<char>> {
    first_id(symbol_ids(), symbol)
}

pub open spec fn first_id(t: Seq<(Seq<char>, Seq<char>)>, symbol: Seq<char>) -> Option<Seq<char>>
    decreases t.len(),
{
    if t.len() == 0 {
        None
    } else if t[0].0 == symbol {
        Some(t[0].1)
    } else {
        first_id(t.drop_first(), symbol)
    }
}

fn symbol_table() -> (r: Vec<(&'static str, &'static str)>)
    ensures
        r@.map_values(|e: (&'static str, &'static str)| (e.0@, e.1@)) == symbol_ids(),
{
    let r = vec![
        ("ETH", "ethereum"),
        ("stETH", "staked-ether"),
        ("USDC", "usd-coin"),
        ("USDC.e", "usd-coin"),
        ("USDT", "tether"),
        ("USDT0", "tether"),
        ("ARB", "arbitrum"),
        ("DAI", "dai"),
    ];
    assert(r@.map_values(|e: (&'static str, &'static str)| (e.0@, e.1@)) =~= symbol_ids());
    r
}

/// The CoinGecko coin id a displayed symbol is priced by, if any.
pub fn coin_id(symbol: &str) -> (r: Option<&'static str>)
    ensures
        match r {
            Some(id) => coin_id_spec(symbol@) == Some(id@),
            None => coin_id_spec(symbol@) is None,
        },
{
    let table = symbol_table();
    let ghost t = symbol_ids();
    let mut i: usize = 0;
    assert(t.skip(0) =~= t);
    while i < table.len()
        invariant
            i <= table@.len() == t.len(),
            table@.map_values(|e: (&'static str, &'static str)| (e.0@, e.1@)) == t,
            t == symbol_ids(),
            first_id(t.skip(i as int), symbol@) == first_id(t, symbol@),
        decreases table@.len() - i,
    {
        assert(t.skip(i as int)[0] == t[i as int]);
        assert(t[i as int] == (table@[i as int].0@, table@[i as int].1@));
        if str_eq(table[i].0, symbol) {
            return Some(table[i].1);
        }
        assert(t.skip(i as int).drop_first() =~= t.skip(i + 1));
        i = i + 1;
    }
    assert(t.skip(i as int) =~= Seq::<(Seq<char>, Seq<char>)>::empty());
    None
}

/// The priced symbols with their coin ids, in the order given; symbols
/// without an id left out.
pub open spec fn wanted_spec(symbols: Seq<Seq<char>>) -> Seq<(Seq<char>, Seq<char>)>
    decreases symbols.len(),
{
    if symbols.len() == 0 {
        seq![]
    } else {
        let rest = wanted_spec(symbols.drop_last());
        match coin_id_spec(symbols.last()) {
            Some(id) => rest.push((symbols.last(), id)),
            None => rest,
        }
    }
}

/// The distinct coin ids, in order.
pub open spec fn ids_of(w: Seq<(Seq<char>, Seq<char>)>) -> Seq<Seq<char>>
    decreases w.len(),
{
    if w.len() == 0 {
        seq![]
    } else {
        set_insert(ids_of(w.drop_last()), w.last().1)
    }
}

/// The whitelist id of the first registry token shown as `symbol`.
pub open spec fn registry_asset(t: Seq<TokenView>, symbol: Seq<char>) -> Option<Seq<char>>
    decreases t.len(),
{
    if t.len() == 0 {
        None
    } else if t[0].display_symbol == symbol {
        Some(t[0].whitelist_id)
    } else {
        registry_asset(t.drop_first(), symbol)
    }
}

/// The asset a displayed symbol stands for: native ETH, Lido's stETH, or
/// the whitelist id of the registry tokens shown under that symbol (so the
/// bridged `USDC.e` and `USDT0` are USDC and USDT).
pub open spec fn symbol_asset(symbol: Seq<char>) -> Option<Seq<char>> {
    if symbol == seq!['E', 'T', 'H'] {
        Some(seq!['E', 'T', 'H'])
    } else if symbol == seq!['s', 't', 'E', 'T', 'H'] {
        Some(seq!['s', 't', 'E', 'T', 'H'])
    } else {
        registry_asset(registry_spec(), symbol)
    }
}

proof fn lemma_priced_symbols(s: Seq<char>)
    ensures
        coin_id_spec(s) is Some ==> {
            ||| s == "ETH"@ && coin_id_spec(s) == Some("ethereum"@)
            ||| s == "stETH"@ && coin_id_spec(s) == Some("staked-ether"@)
            ||| s == "USDC"@ && coin_id_spec(s) == Some("usd-coin"@)
            ||| s == "USDC.e"@ && coin_id_spec(s) == Some("usd-coin"@)
            ||| s == "USDT"@ && coin_id_spec(s) == Some("tether"@)
            ||| s == "USDT0"@ && coin_id_spec(s) == Some("tether"@)
            ||| s == "ARB"@ && coin_id_spec(s) == Some("arbitrum"@)
            ||| s == "DAI"@ && coin_id_spec(s) == Some("dai"@)
        },
{
    reveal_with_fuel(first_id, 9);
}

proof fn lemma_reveal_literals()
    ensures
        "ETH"@ =~= seq!['E', 'T', 'H'],
        "stETH"@ =~= seq!['s', 't', 'E', 'T', 'H'],
        "USDC"@ =~= seq!['U', 'S', 'D', 'C'],
        "USDC.e"@ =~= seq!['U', 'S', 'D', 'C', '.', 'e'],
        "USDT"@ =~= seq!['U', 'S', 'D', 'T'],
        "USDT0"@ =~= seq!['U', 'S', 'D', 'T', '0'],
        "ARB"@ =~= seq!['A', 'R', 'B'],
        "DAI"@ =~= seq!['D', 'A', 'I'],
        "ethereum"@ =~= seq!['e', 't', 'h', 'e', 'r', 'e', 'u', 'm'],
        "staked-ether"@ =~= seq!['s', 't', 'a', 'k', 'e', 'd', '-', 'e', 't', 'h', 'e', 'r'],
        "usd-coin"@ =~= seq!['u', 's', 'd', '-', 'c', 'o', 'i', 'n'],
        "tether"@ =~= seq!['t', 'e', 't', 'h', 'e', 'r'],
        "arbitrum"@ =~= seq!['a', 'r', 'b', 'i', 't', 'r', 'u', 'm'],
        "dai"@ =~= seq!['d', 'a', 'i'],
{
    reveal_strlit("ETH");
    reveal_strlit("stETH");
    reveal_strlit("USDC");
    reveal_strlit("USDC.e");
    reveal_strlit("USDT");
    reveal_strlit("USDT0");
    reveal_strlit("ARB");
    reveal_strlit("DAI");
    reveal_strlit("ethereum");
    reveal_strlit("staked-ether");
    reveal_strlit("usd-coin");
    reveal_strlit("tether");
    reveal_strlit("arbitrum");
    reveal_strlit("dai");
}

/// The asset of each priced symbol, and its coin id.
proof fn lemma_priced_asset(s: Seq<char>)
    requires
        coin_id_spec(s) is Some,
    ensures
        symbol_asset(s) is Some,
        ({
            let a = symbol_asset(s)->0;
            let id = coin_id_spec(s)->0;
            ||| a == seq!['E', 'T', 'H'] && id == seq!['e', 't', 'h', 'e', 'r', 'e', 'u', 'm']
            ||| a == seq!['s', 't', 'E', 'T', 'H'] && id == seq!['s', 't', 'a', 'k', 'e', 'd', '-', 'e', 't', 'h', 'e', 'r']
            ||| a == seq!['U', 'S', 'D', 'C'] && id == seq!['u', 's', 'd', '-', 'c', 'o', 'i', 'n']
            ||| a == seq!['U', 'S', 'D', 'T'] && id == seq!['t', 'e', 't', 'h', 'e', 'r']
            ||| a == seq!['A', 'R', 'B'] && id == seq!['a', 'r', 'b', 'i', 't', 'r', 'u', 'm']
            ||| a == seq!['D', 'A', 'I'] && id == seq!['d', 'a', 'i']
        }),
{
    lemma_priced_symbols(s);
    lemma_reveal_literals();
    reveal_with_fuel(registry_asset, 7);
}

/// Each priced symbol stands for an asset, and two priced symbols share a
/// coin id exactly when they stand for the same asset: a symbol is never
/// priced as another asset (ARB not as ETH, USDT0 as USDT).
pub proof fn law_price_ids_follow_assets(s1: Seq<char>, s2: Seq<char>)
    requires
        coin_id_spec(s1) is Some,
        coin_id_spec(s2) is Some,
    ensures
        symbol_asset(s1) is Some,
        (coin_id_spec(s1) == coin_id_spec(s2)) <==> (symbol_asset(s1) == symbol_asset(s2)),
{
    lemma_priced_asset(s1);
    lemma_priced_asset(s2);
}

/// What to ask CoinGecko for.
#[derive(Debug)]
pub struct PriceQuery {
    /// The distinct coin ids, sorted.
    pub ids: Vec<String>,
    /// Each priced symbol with its coin id, in the order asked.
    pub wanted: Vec<(String, String)>,
}

pub open spec fn pairs_text(v: Seq<(String, String)>) -> Seq<(Seq<char>, Seq<char>)> {
    v.map_values(|e: (String, String)| (e.0@, e.1@))
}

pub open spec fn str_refs_view(v: Seq<&str>) -> Seq<Seq<char>> {
    v.map_values(|s: &str| s@)
}

/// The query for the displayed symbols.
pub fn price_query(symbols: &[&str]) -> (r: PriceQuery)
    ensures
        pairs_text(r.wanted@) == wanted_spec(str_refs_view(symbols@)),
        strings_view(r.ids@) == ids_of(wanted_spec(str_refs_view(symbols@))),
        strs_sorted(strings_view(r.ids@)),
{
    let ghost sv = str_refs_view(symbols@);
    let mut ids: Vec<String> = Vec::new();
    let mut wanted: Vec<(String, String)> = Vec::new();
    let mut i: usize = 0;
    assert(sv.take(0) =~= Seq::<Seq<char>>::empty());
    assert(pairs_text(wanted@) =~= Seq::<(Seq<char>, Seq<char>)>::empty());
    assert(strings_view(ids@) =~= Seq::<Seq<char>>::empty());
    while i < symbols.len()
        invariant
            i <= symbols@.len() == sv.len(),
            sv == str_refs_view(symbols@),
            pairs_text(wanted@) == wanted_spec(sv.take(i as int)),
            strings_view(ids@) == ids_of(wanted_spec(sv.take(i as int))),
            strs_sorted(strings_view(ids@)),
        decreases symbols@.len() - i,
    {
        assert(sv.take(i + 1).drop_last() =~= sv.take(i as int));
        assert(sv.take(i + 1).last() == symbols@[i as int]@);
        let sym = symbols[i];
        match coin_id(sym) {
            Some(id) => {
                let ghost before = pairs_text(wanted@);
                wanted.push((string_of(&chars_of(sym)), string_of(&chars_of(id))));
                assert(pairs_text(wanted@) =~= before.push((sym@, id@)));
                crate::config::insert_name(&mut ids, &chars_of(id));
                let ghost w = wanted_spec(sv.take(i + 1));
                assert(w.drop_last() =~= wanted_spec(sv.take(i as int)));
            },
            None => {},
        }
        i = i + 1;
    }
    assert(sv.take(symbols@.len() as int) =~= sv);
    PriceQuery { ids, wanted }
}

pub open spec fn joined_by_comma(s: Seq<Seq<char>>) -> Seq<char>
    decreases s.len(),
{
    if s.len() == 0 {
        seq![]
    } else if s.len() == 1 {
        s[0]
    } else {
        joined_by_comma(s.drop_last()) + seq![','] + s.last()
    }
}

pub open spec fn price_url_spec(ids: Seq<Seq<char>>) -> Seq<char> {
    "https://api.coingecko.com/api/v3/simple/price?ids="@ + joined_by_comma(ids) + "&vs_currencies=usd"@
}

/// The request URL for the coin ids.
pub fn price_url(ids: &Vec<String>) -> (r: String)
    ensures
        r@ == price_url_spec(strings_view(ids@)),
{
    let ghost iv = strings_view(ids@);
    let mut out = chars_of("https://api.coingecko.com/api/v3/simple/price?ids=");
    let ghost start = out@;
    let mut i: usize = 0;
    assert(iv.take(0) =~= Seq::<Seq<char>>::empty());
    while i < ids.len()
        invariant
            i <= ids@.len() == iv.len(),
            iv == strings_view(ids@),
            out@ == start + joined_by_comma(iv.take(i as int)),
        decreases ids@.len() - i,
    {
        assert(iv.take(i + 1).drop_last() =~= iv.take(i as int));
        assert(iv.take(i + 1).last() == ids@[i as int]@);
        if i > 0 {
            out.push(',');
        }
        push_text(&mut out, ids[i].as_str());
        i = i + 1;
        proof {
            if i == 1 {
                assert(out@ =~= start + joined_by_comma(iv.take(1)));
            } else {
                assert(out@ =~= start + joined_by_comma(iv.take(i as int)));
            }
        }
    }
    assert(iv.take(ids@.len() as int) =~= iv);
    push_text(&mut out, "&vs_currencies=usd");
    string_of(&out)
}

} // verus!
