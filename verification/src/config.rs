//! The tracker's configuration: owned addresses by alias, RPC URLs per
//! chain, beacon node, CSM operators, token whitelist, safes and database
//! path. It is read from environment settings or from the TOML file form,
//! and written back to that form.

use vstd::prelude::*;

use crate::chain::{all_chains_spec, chain_by_name_spec, chain_name_spec, rpc_env_key_spec, Chain};
use crate::keyed::{
    as_keyed, find_key, find_str, has_key, insert_key, key_lower_bound, keys_sorted, lemma_insert_key_sorted,
    lemma_lower_bound, lemma_set_insert_sorted, pairs_view, set_insert, strs_sorted,
};
use crate::primitives::{address_hex, address_parse_spec, address_to_hex, parse_address, Address};
use crate::text::{
    chars_equal, chars_of, parse_u64, parse_u64_spec, split_chars, split_on, string_of, trim, trim_chars,
};
use crate::tokens::strings_view;

verus! {

#[derive(Debug)]
pub struct ChainConfig {
    pub rpc_url: String,
}

/// The RPC settings of each chain, if it has any.
#[derive(Debug)]
pub struct ChainMap {
    pub mainnet: Option<ChainConfig>,
    pub arbitrum: Option<ChainConfig>,
    pub optimism: Option<ChainConfig>,
    pub base: Option<ChainConfig>,
}

#[verifier::ext_equal]
pub struct ChainMapView {
    pub mainnet: Option<Seq<char>>,
    pub arbitrum: Option<Seq<char>>,
    pub optimism: Option<Seq<char>>,
    pub base: Option<Seq<char>>,
}

pub open spec fn opt_url(o: Option<ChainConfig>) -> Option<Seq<char>> {
    match o {
        Some(c) => Some(c.rpc_url@),
        None => None,
    }
}

impl View for ChainMap {
    type V = ChainMapView;

    open spec fn view(&self) -> ChainMapView {
        ChainMapView {
            mainnet: opt_url(self.mainnet),
            arbitrum: opt_url(self.arbitrum),
            optimism: opt_url(self.optimism),
            base: opt_url(self.base),
        }
    }
}

/// The RPC URL configured for `c`.
pub open spec fn chain_url(m: ChainMapView, c: Chain) -> Option<Seq<char>> {
    match c {
        Chain::Mainnet => m.mainnet,
        Chain::Arbitrum => m.arbitrum,
        Chain::Optimism => m.optimism,
        Chain::Base => m.base,
    }
}

pub open spec fn no_chains() -> ChainMapView {
    ChainMapView { mainnet: None, arbitrum: None, optimism: None, base: None }
}

/// `m` with `c` set to `url`.
pub open spec fn with_chain(m: ChainMapView, c: Chain, url: Seq<char>) -> ChainMapView {
    match c {
        Chain::Mainnet => ChainMapView { mainnet: Some(url), ..m },
        Chain::Arbitrum => ChainMapView { arbitrum: Some(url), ..m },
        Chain::Optimism => ChainMapView { optimism: Some(url), ..m },
        Chain::Base => ChainMapView { base: Some(url), ..m },
    }
}

/// The configured chains, in chain order.
pub open spec fn configured_chains(m: ChainMapView) -> Seq<Chain> {
    all_chains_spec().filter(|c: Chain| chain_url(m, c) is Some)
}

impl ChainMap {
    pub fn new() -> (r: ChainMap)
        ensures
            r@ == no_chains(),
    {
        ChainMap { mainnet: None, arbitrum: None, optimism: None, base: None }
    }

    /// The settings of `c`, if it has any.
    pub fn get(&self, c: Chain) -> (r: Option<&ChainConfig>)
        ensures
            opt_url(match r {
                Some(x) => Some(*x),
                None => None,
            }) == chain_url(self@, c),
    {
        match c {
            Chain::Mainnet => self.mainnet.as_ref(),
            Chain::Arbitrum => self.arbitrum.as_ref(),
            Chain::Optimism => self.optimism.as_ref(),
            Chain::Base => self.base.as_ref(),
        }
    }

    /// Sets the settings of `c`, replacing any it had.
    pub fn insert(&mut self, c: Chain, cc: ChainConfig)
        ensures
            final(self)@ == with_chain(old(self)@, c, cc.rpc_url@),
    {
        match c {
            Chain::Mainnet => {
                self.mainnet = Some(cc);
            },
            Chain::Arbitrum => {
                self.arbitrum = Some(cc);
            },
            Chain::Optimism => {
                self.optimism = Some(cc);
            },
            Chain::Base => {
                self.base = Some(cc);
            },
        }
        assert(self@ =~~= with_chain(old(self)@, c, cc.rpc_url@));
    }

    /// How many chains have settings.
    pub fn len(&self) -> (r: usize)
        ensures
            r == configured_chains(self@).len(),
    {
        let mut n: usize = 0;
        if self.mainnet.is_some() {
            n = n + 1;
        }
        if self.arbitrum.is_some() {
            n = n + 1;
        }
        if self.optimism.is_some() {
            n = n + 1;
        }
        if self.base.is_some() {
            n = n + 1;
        }
        proof {
            reveal_with_fuel(Seq::<_>::filter, 5);
            assert(all_chains_spec().drop_last().drop_last().drop_last().drop_last() =~= Seq::<Chain>::empty());
        }
        n
    }

    pub fn is_empty(&self) -> (r: bool)
        ensures
            r == (configured_chains(self@).len() == 0),
    {
        self.len() == 0
    }

    /// The configured chains, in chain order.
    pub fn chains(&self) -> (r: Vec<Chain>)
        ensures
            r@ == configured_chains(self@),
    {
        let mut r: Vec<Chain> = Vec::new();
        if self.mainnet.is_some() {
            r.push(Chain::Mainnet);
        }
        if self.arbitrum.is_some() {
            r.push(Chain::Arbitrum);
        }
        if self.optimism.is_some() {
            r.push(Chain::Optimism);
        }
        if self.base.is_some() {
            r.push(Chain::Base);
        }
        proof {
            reveal_with_fuel(Seq::<_>::filter, 5);
            assert(all_chains_spec().drop_last().drop_last().drop_last().drop_last() =~= Seq::<Chain>::empty());
        }
        assert(r@ =~= configured_chains(self@));
        r
    }
}

/// The configuration. `addresses` is ordered by alias with no alias twice
/// and `safes` ordered with no name twice (see [`config_wf`]).
#[derive(Debug)]
pub struct Config {
    pub addresses: Vec<(String, Address)>,
    pub chains: ChainMap,
    pub etherscan_api_key: Option<String>,
    pub beacon_url: Option<String>,
    pub validator_indices: Vec<u64>,
    pub csm_operator_ids: Vec<u64>,
    pub token_whitelist: Vec<String>,
    pub safes: Vec<String>,
    pub db_path_override: Option<String>,
}

#[verifier::ext_equal]
pub struct ConfigView {
    pub addresses: Seq<(Seq<char>, Address)>,
    pub chains: ChainMapView,
    pub etherscan_api_key: Option<Seq<char>>,
    pub beacon_url: Option<Seq<char>>,
    pub validator_indices: Seq<u64>,
    pub csm_operator_ids: Seq<u64>,
    pub token_whitelist: Seq<Seq<char>>,
    pub safes: Seq<Seq<char>>,
    pub db_path_override: Option<Seq<char>>,
}

pub open spec fn opt_str(o: Option<String>) -> Option<Seq<char>> {
    match o {
        Some(s) => Some(s@),
        None => None,
    }
}

impl View for Config {
    type V = ConfigView;

    open spec fn view(&self) -> ConfigView {
        ConfigView {
            addresses: pairs_view(self.addresses@),
            chains: self.chains@,
            etherscan_api_key: opt_str(self.etherscan_api_key),
            beacon_url: opt_str(self.beacon_url),
            validator_indices: self.validator_indices@,
            csm_operator_ids: self.csm_operator_ids@,
            token_whitelist: strings_view(self.token_whitelist@),
            safes: strings_view(self.safes@),
            db_path_override: opt_str(self.db_path_override),
        }
    }
}

/// The configuration's invariant: the orders of its maps and sets.
pub open spec fn config_wf(c: ConfigView) -> bool {
    &&& keys_sorted(c.addresses)
    &&& strs_sorted(c.safes)
}

/// Why a configuration was refused.
#[derive(Debug)]
pub enum ConfigError {
    /// The addresses setting is missing from the environment.
    AddressesUnset,
    /// The addresses setting names no address.
    AddressesEmpty,
    /// The configuration file names no address.
    NoAddresses,
    /// An addresses-setting entry without `=`.
    MissingEquals(String),
    /// An addresses-setting entry with an empty alias.
    EmptyAlias,
    /// A file address entry with an empty alias.
    EntryWithoutAlias,
    InvalidAddress { alias: String, address: String },
    DuplicateAlias(String),
    InvalidNumber { what: String, item: String },
    /// A safe, from the environment, that is no configured alias.
    UnknownEnvSafe(String),
    /// A safe, from the file, that is no configured alias.
    UnknownSafe(String),
    UnknownChain(String),
    /// A settings-form address given without an alias.
    AddressWithoutAlias(String),
    /// A settings-form alias given without an address.
    AliasWithoutAddress(String),
    /// The settings form names no address.
    AddressRequired,
}

pub enum ConfigErrorView {
    AddressesUnset,
    AddressesEmpty,
    NoAddresses,
    MissingEquals(Seq<char>),
    EmptyAlias,
    EntryWithoutAlias,
    InvalidAddress { alias: Seq<char>, address: Seq<char> },
    DuplicateAlias(Seq<char>),
    InvalidNumber { what: Seq<char>, item: Seq<char> },
    UnknownEnvSafe(Seq<char>),
    UnknownSafe(Seq<char>),
    UnknownChain(Seq<char>),
    AddressWithoutAlias(Seq<char>),
    AliasWithoutAddress(Seq<char>),
    AddressRequired,
}

impl View for ConfigError {
    type V = ConfigErrorView;

    open spec fn view(&self) -> ConfigErrorView {
        match self {
            ConfigError::AddressesUnset => ConfigErrorView::AddressesUnset,
            ConfigError::AddressesEmpty => ConfigErrorView::AddressesEmpty,
            ConfigError::NoAddresses => ConfigErrorView::NoAddresses,
            ConfigError::MissingEquals(s) => ConfigErrorView::MissingEquals(s@),
            ConfigError::EmptyAlias => ConfigErrorView::EmptyAlias,
            ConfigError::EntryWithoutAlias => ConfigErrorView::EntryWithoutAlias,
            ConfigError::InvalidAddress { alias, address } => ConfigErrorView::InvalidAddress {
                alias: alias@,
                address: address@,
            },
            ConfigError::DuplicateAlias(s) => ConfigErrorView::DuplicateAlias(s@),
            ConfigError::InvalidNumber { what, item } => ConfigErrorView::InvalidNumber {
                what: what@,
                item: item@,
            },
            ConfigError::UnknownEnvSafe(s) => ConfigErrorView::UnknownEnvSafe(s@),
            ConfigError::UnknownSafe(s) => ConfigErrorView::UnknownSafe(s@),
            ConfigError::UnknownChain(s) => ConfigErrorView::UnknownChain(s@),
            ConfigError::AddressWithoutAlias(s) => ConfigErrorView::AddressWithoutAlias(s@),
            ConfigError::AliasWithoutAddress(s) => ConfigErrorView::AliasWithoutAddress(s@),
            ConfigError::AddressRequired => ConfigErrorView::AddressRequired,
        }
    }
}

pub open spec fn result_view<T, V>(r: Result<T, ConfigError>, f: spec_fn(T) -> V) -> Result<V, ConfigErrorView> {
    match r {
        Ok(t) => Ok(f(t)),
        Err(e) => Err(e@),
    }
}

impl Config {
    /// The empty configuration, before anything has been saved.
    pub fn empty() -> (r: Config)
        ensures
            r@ == empty_config_spec(),
            config_wf(r@),
    {
        let r = Config {
            addresses: Vec::new(),
            chains: ChainMap::new(),
            etherscan_api_key: None,
            beacon_url: None,
            validator_indices: Vec::new(),
            csm_operator_ids: Vec::new(),
            token_whitelist: Vec::new(),
            safes: Vec::new(),
            db_path_override: None,
        };
        assert(r@ =~~= empty_config_spec());
        r
    }
}

pub open spec fn empty_config_spec() -> ConfigView {
    ConfigView {
        addresses: seq![],
        chains: no_chains(),
        etherscan_api_key: None,
        beacon_url: None,
        validator_indices: seq![],
        csm_operator_ids: seq![],
        token_whitelist: seq![],
        safes: seq![],
        db_path_override: None,
    }
}

// ---------------------------------------------------------------------------
// Comma-separated lists
// ---------------------------------------------------------------------------

/// The trimmed, non-empty pieces of a comma-separated list, in order.
pub open spec fn csv_items(raw: Seq<char>) -> Seq<Seq<char>> {
    split_on(raw, ',').map_values(|p: Seq<char>| trim(p)).filter(|p: Seq<char>| p.len() > 0)
}

/// The items of a comma-separated list.
pub fn csv_list(raw: &str) -> (r: Vec<String>)
    ensures
        strings_view(r@) == csv_items(raw@),
{
    let pieces = split_chars(&chars_of(raw), ',');
    let ghost sp = split_on(raw@, ',');
    let ghost tr = sp.map_values(|p: Seq<char>| trim(p));
    let mut out: Vec<String> = Vec::new();
    let mut i: usize = 0;
    while i < pieces.len()
        invariant
            i <= pieces@.len() == sp.len() == tr.len(),
            sp == split_on(raw@, ','),
            tr == sp.map_values(|p: Seq<char>| trim(p)),
            forall|k: int| 0 <= k < pieces@.len() ==> #[trigger] pieces@[k]@ == sp[k],
            strings_view(out@) == tr.take(i as int).filter(|p: Seq<char>| p.len() > 0),
        decreases pieces@.len() - i,
    {
        let t = trim_chars(&pieces[i]);
        assert(t@ == tr[i as int]);
        let ghost before = strings_view(out@);
        assert(tr.take(i + 1).drop_last() =~= tr.take(i as int));
        reveal_with_fuel(Seq::<_>::filter, 1);
        if t.len() > 0 {
            out.push(string_of(&t));
            assert(strings_view(out@) =~= before.push(t@));
        } else {
            assert(strings_view(out@) =~= before);
        }
        i = i + 1;
    }
    assert(tr.take(pieces@.len() as int) =~= tr);
    out
}

/// The numbers of a list, or the first item that is not one.
pub open spec fn numbers_spec(items: Seq<Seq<char>>, what: Seq<char>) -> Result<Seq<u64>, ConfigErrorView>
    decreases items.len(),
{
    if items.len() == 0 {
        Ok(seq![])
    } else {
        match parse_u64_spec(items[0]) {
            None => Err(ConfigErrorView::InvalidNumber { what, item: items[0] }),
            Some(n) => match numbers_spec(items.drop_first(), what) {
                Ok(rest) => Ok(seq![n] + rest),
                Err(e) => Err(e),
            },
        }
    }
}

proof fn lemma_numbers_prefix(items: Seq<Seq<char>>, what: Seq<char>, i: int, acc: Seq<u64>)
    requires
        0 <= i <= items.len(),
        acc.len() == i,
        forall|k: int| 0 <= k < i ==> parse_u64_spec(#[trigger] items[k]) == Some(acc[k]),
    ensures
        numbers_spec(items, what) == match numbers_spec(items.skip(i), what) {
            Ok(rest) => Ok(acc + rest),
            Err(e) => Err(e),
        },
    decreases i,
{
    if i == 0 {
        assert(items.skip(0) =~= items);
        assert(numbers_spec(items, what) matches Ok(r) ==> acc + r =~= r);
    } else {
        let d = items.drop_first();
        assert forall|k: int| 0 <= k < i - 1 implies parse_u64_spec(#[trigger] d[k]) == Some(acc.drop_first()[k]) by {
            assert(d[k] == items[k + 1]);
        }
        assert(d.skip(i - 1) =~= items.skip(i));
        lemma_numbers_prefix(d, what, i - 1, acc.drop_first());
        assert(parse_u64_spec(items[0]) == Some(acc[0]));
        match numbers_spec(items.skip(i), what) {
            Ok(rest) => {
                assert(seq![acc[0]] + (acc.drop_first() + rest) =~= acc + rest);
            },
            Err(e) => {},
        }
    }
}

/// `parse_u64_list`: the numbers of a comma-separated list (blank items
/// skipped), or the first item that does not parse as a `u64`.
pub fn parse_u64_list(raw: &str, what: &str) -> (r: Result<Vec<u64>, ConfigError>)
    ensures
        result_view(r, |v: Vec<u64>| v@) == numbers_spec(csv_items(raw@), what@),
{
    let items = csv_list(raw);
    let ghost iv = strings_view(items@);
    let mut out: Vec<u64> = Vec::new();
    let mut i: usize = 0;
    while i < items.len()
        invariant
            i <= items@.len() == iv.len(),
            iv == strings_view(items@),
            iv == csv_items(raw@),
            out@.len() == i,
            forall|k: int| 0 <= k < i ==> parse_u64_spec(#[trigger] iv[k]) == Some(out@[k]),
        decreases items@.len() - i,
    {
        match parse_u64(&chars_of(items[i].as_str())) {
            Some(n) => {
                out.push(n);
            },
            None => {
                proof {
                    lemma_numbers_prefix(iv, what@, i as int, out@);
                    assert(iv.skip(i as int)[0] == iv[i as int]);
                }
                let item = string_of(&chars_of(items[i].as_str()));
                let w = string_of(&chars_of(what));
                return Err(ConfigError::InvalidNumber { what: w, item });
            },
        }
        i = i + 1;
    }
    proof {
        lemma_numbers_prefix(iv, what@, i as int, out@);
        assert(iv.skip(i as int) =~= Seq::<Seq<char>>::empty());
        assert(out@ + seq![] =~= out@);
    }
    Ok(out)
}


// ---------------------------------------------------------------------------
// Addresses by alias
// ---------------------------------------------------------------------------

/// Adds `alias -> a` unless the alias is present; says whether it added.
pub(crate) fn insert_alias(out: &mut Vec<(String, Address)>, alias: &Vec<char>, a: Address) -> (added: bool)
    requires
        keys_sorted(pairs_view(old(out)@)),
    ensures
        added == !has_key(pairs_view(old(out)@), alias@),
        added ==> pairs_view(final(out)@) == insert_key(pairs_view(old(out)@), alias@, a),
        !added ==> final(out)@ == old(out)@,
        keys_sorted(pairs_view(final(out)@)),
{
    let (p, found) = find_key(out, alias);
    if found {
        return false;
    }
    let ghost before = pairs_view(out@);
    proof {
        lemma_lower_bound(before, alias@);
        lemma_insert_key_sorted(before, alias@, a);
    }
    out.insert(p, (string_of(alias), a));
    assert(pairs_view(out@) =~= insert_key(before, alias@, a));
    true
}

/// The index of the first `=` in `s`.
pub open spec fn first_eq(s: Seq<char>) -> Option<int>
    decreases s.len(),
{
    if s.len() == 0 {
        None
    } else if s[0] == '=' {
        Some(0)
    } else {
        match first_eq(s.drop_first()) {
            Some(i) => Some(i + 1),
            None => None,
        }
    }
}

proof fn lemma_first_eq(s: Seq<char>, i: int)
    requires
        0 <= i <= s.len(),
        forall|k: int| 0 <= k < i ==> s[k] != '=',
    ensures
        i < s.len() && s[i] == '=' ==> first_eq(s) == Some(i),
        i == s.len() ==> first_eq(s) is None,
    decreases i,
{
    if i > 0 {
        let d = s.drop_first();
        assert forall|k: int| 0 <= k < i - 1 implies d[k] != '=' by {
            assert(d[k] == s[k + 1]);
        }
        lemma_first_eq(d, i - 1);
        if i < s.len() {
            assert(d[i - 1] == s[i]);
        }
    }
}

/// One entry of the addresses setting, `alias=address`, added to `t`.
pub open spec fn env_entry_step(t: Seq<(Seq<char>, Address)>, piece: Seq<char>) -> Result<
    Seq<(Seq<char>, Address)>,
    ConfigErrorView,
> {
    let e = trim(piece);
    if e.len() == 0 {
        Ok(t)
    } else {
        match first_eq(e) {
            None => Err(ConfigErrorView::MissingEquals(e)),
            Some(i) => {
                let alias = trim(e.take(i));
                if alias.len() == 0 {
                    Err(ConfigErrorView::EmptyAlias)
                } else {
                    let text = trim(e.skip(i + 1));
                    match address_parse_spec(text) {
                        None => Err(ConfigErrorView::InvalidAddress { alias, address: text }),
                        Some(a) => if has_key(t, alias) {
                            Err(ConfigErrorView::DuplicateAlias(alias))
                        } else {
                            Ok(insert_key(t, alias, a))
                        },
                    }
                }
            },
        }
    }
}

pub open spec fn env_entries_fold(pieces: Seq<Seq<char>>) -> Result<Seq<(Seq<char>, Address)>, ConfigErrorView>
    decreases pieces.len(),
{
    if pieces.len() == 0 {
        Ok(seq![])
    } else {
        match env_entries_fold(pieces.drop_last()) {
            Err(e) => Err(e),
            Ok(t) => env_entry_step(t, pieces.last()),
        }
    }
}

/// The addresses setting: comma-separated `alias=address` entries, blank
/// ones skipped; at least one is required.
pub open spec fn parse_addresses_spec(raw: Seq<char>) -> Result<Seq<(Seq<char>, Address)>, ConfigErrorView> {
    match env_entries_fold(split_on(raw, ',')) {
        Err(e) => Err(e),
        Ok(t) => if t.len() == 0 {
            Err(ConfigErrorView::AddressesEmpty)
        } else {
            Ok(t)
        },
    }
}

proof fn lemma_env_fold_sorted(pieces: Seq<Seq<char>>)
    ensures
        env_entries_fold(pieces) matches Ok(t) ==> keys_sorted(t),
    decreases pieces.len(),
{
    if pieces.len() > 0 {
        lemma_env_fold_sorted(pieces.drop_last());
        if let Ok(t) = env_entries_fold(pieces.drop_last()) {
            let e = trim(pieces.last());
            if let Some(i) = first_eq(e) {
                let alias = trim(e.take(i));
                if !has_key(t, alias) {
                    if let Some(a) = address_parse_spec(trim(e.skip(i + 1))) {
                        lemma_insert_key_sorted(t, alias, a);
                    }
                }
            }
        }
    }
}

proof fn lemma_env_fold_err(pieces: Seq<Seq<char>>, i: int, e: ConfigErrorView)
    requires
        0 <= i <= pieces.len(),
        env_entries_fold(pieces.take(i)) == Err::<Seq<(Seq<char>, Address)>, ConfigErrorView>(e),
    ensures
        env_entries_fold(pieces) == Err::<Seq<(Seq<char>, Address)>, ConfigErrorView>(e),
    decreases pieces.len() - i,
{
    if i < pieces.len() {
        assert(pieces.take(i + 1).drop_last() =~= pieces.take(i));
        lemma_env_fold_err(pieces, i + 1, e);
    } else {
        assert(pieces.take(i) =~= pieces);
    }
}

fn sub_chars(s: &Vec<char>, lo: usize, hi: usize) -> (r: Vec<char>)
    requires
        lo <= hi <= s@.len(),
    ensures
        r@ == s@.subrange(lo as int, hi as int),
{
    let mut r: Vec<char> = Vec::new();
    let mut k: usize = lo;
    while k < hi
        invariant
            lo <= k <= hi <= s@.len(),
            r@ == s@.subrange(lo as int, k as int),
        decreases hi - k,
    {
        r.push(s[k]);
        k = k + 1;
        assert(r@ =~= s@.subrange(lo as int, k as int));
    }
    r
}

/// One `alias=address` entry applied to the addresses read so far.
fn env_entry(out: &mut Vec<(String, Address)>, piece: &Vec<char>) -> (r: Result<(), ConfigError>)
    requires
        keys_sorted(pairs_view(old(out)@)),
    ensures
        keys_sorted(pairs_view(final(out)@)),
        match env_entry_step(pairs_view(old(out)@), piece@) {
            Ok(t) => r is Ok && pairs_view(final(out)@) == t,
            Err(e) => r matches Err(x) && x@ == e,
        },
{
    let e = trim_chars(piece);
    if e.len() == 0 {
        return Ok(());
    }
    let n = e.len();
    let mut i: usize = 0;
    while i < n && e[i] != '='
        invariant
            n == e@.len(),
            i <= n,
            forall|k: int| 0 <= k < i ==> e@[k] != '=',
        decreases n - i,
    {
        i = i + 1;
    }
    proof {
        lemma_first_eq(e@, i as int);
    }
    if i == n {
        return Err(ConfigError::MissingEquals(string_of(&e)));
    }
    let alias = trim_chars(&sub_chars(&e, 0, i));
    assert(e@.subrange(0, i as int) =~= e@.take(i as int));
    if alias.len() == 0 {
        return Err(ConfigError::EmptyAlias);
    }
    let text = trim_chars(&sub_chars(&e, i + 1, n));
    assert(e@.subrange(i + 1, n as int) =~= e@.skip(i + 1));
    let text_s = string_of(&text);
    match parse_address(text_s.as_str()) {
        None => Err(ConfigError::InvalidAddress { alias: string_of(&alias), address: text_s }),
        Some(a) => {
            if insert_alias(out, &alias, a) {
                Ok(())
            } else {
                Err(ConfigError::DuplicateAlias(string_of(&alias)))
            }
        },
    }
}

/// Reads the addresses setting into aliases and addresses, ordered by alias.
pub fn parse_addresses(raw: &str) -> (r: Result<Vec<(String, Address)>, ConfigError>)
    ensures
        result_view(r, |v: Vec<(String, Address)>| pairs_view(v@)) == parse_addresses_spec(raw@),
        r matches Ok(v) ==> keys_sorted(pairs_view(v@)),
{
    let pieces = split_chars(&chars_of(raw), ',');
    let ghost sp = split_on(raw@, ',');
    let mut out: Vec<(String, Address)> = Vec::new();
    assert(sp.take(0) =~= Seq::<Seq<char>>::empty());
    assert(pairs_view(out@) =~= Seq::<(Seq<char>, Address)>::empty());
    let mut i: usize = 0;
    while i < pieces.len()
        invariant
            i <= pieces@.len() == sp.len(),
            sp == split_on(raw@, ','),
            forall|k: int| 0 <= k < pieces@.len() ==> #[trigger] pieces@[k]@ == sp[k],
            keys_sorted(pairs_view(out@)),
            env_entries_fold(sp.take(i as int)) == Ok::<Seq<(Seq<char>, Address)>, ConfigErrorView>(pairs_view(out@)),
        decreases pieces@.len() - i,
    {
        assert(sp.take(i + 1).drop_last() =~= sp.take(i as int));
        assert(sp.take(i + 1).last() == pieces@[i as int]@);
        match env_entry(&mut out, &pieces[i]) {
            Ok(()) => {},
            Err(e) => {
                proof {
                    lemma_env_fold_err(sp, i + 1, e@);
                }
                return Err(e);
            },
        }
        i = i + 1;
    }
    assert(sp.take(pieces@.len() as int) =~= sp);
    if out.len() == 0 {
        return Err(ConfigError::AddressesEmpty);
    }
    Ok(out)
}

/// One address entry of the file, `(alias, address)`, added to `t`.
pub open spec fn toml_entry_step(t: Seq<(Seq<char>, Address)>, entry: (Seq<char>, Seq<char>)) -> Result<
    Seq<(Seq<char>, Address)>,
    ConfigErrorView,
> {
    let alias = trim(entry.0);
    if alias.len() == 0 {
        Err(ConfigErrorView::EntryWithoutAlias)
    } else {
        match address_parse_spec(trim(entry.1)) {
            None => Err(ConfigErrorView::InvalidAddress { alias, address: entry.1 }),
            Some(a) => if has_key(t, alias) {
                Err(ConfigErrorView::DuplicateAlias(alias))
            } else {
                Ok(insert_key(t, alias, a))
            },
        }
    }
}

pub open spec fn toml_entries_fold(entries: Seq<(Seq<char>, Seq<char>)>) -> Result<Seq<(Seq<char>, Address)>, ConfigErrorView>
    decreases entries.len(),
{
    if entries.len() == 0 {
        Ok(seq![])
    } else {
        match toml_entries_fold(entries.drop_last()) {
            Err(e) => Err(e),
            Ok(t) => toml_entry_step(t, entries.last()),
        }
    }
}

proof fn lemma_toml_fold_err(entries: Seq<(Seq<char>, Seq<char>)>, i: int, e: ConfigErrorView)
    requires
        0 <= i <= entries.len(),
        toml_entries_fold(entries.take(i)) == Err::<Seq<(Seq<char>, Address)>, ConfigErrorView>(e),
    ensures
        toml_entries_fold(entries) == Err::<Seq<(Seq<char>, Address)>, ConfigErrorView>(e),
    decreases entries.len() - i,
{
    if i < entries.len() {
        assert(entries.take(i + 1).drop_last() =~= entries.take(i));
        lemma_toml_fold_err(entries, i + 1, e);
    } else {
        assert(entries.take(i) =~= entries);
    }
}


// ---------------------------------------------------------------------------
// The file form
// ---------------------------------------------------------------------------

#[derive(Debug)]
pub struct AddressEntry {
    pub alias: String,
    pub address: String,
}

#[derive(Debug)]
pub struct ChainEntry {
    pub rpc_url: String,
}

#[derive(Debug)]
pub struct BeaconEntry {
    pub url: Option<String>,
    pub validator_indices: Vec<u64>,
}

#[derive(Debug)]
pub struct CsmEntry {
    pub operator_ids: Vec<u64>,
}

#[derive(Debug)]
pub struct TokensEntry {
    pub whitelist: Vec<String>,
}

/// The configuration file's tables. `chains` holds the `[chains.<name>]`
/// tables in key order.
#[derive(Debug)]
pub struct ConfigToml {
    pub addresses: Vec<AddressEntry>,
    pub chains: Vec<(String, ChainEntry)>,
    pub beacon: Option<BeaconEntry>,
    pub csm: Option<CsmEntry>,
    pub tokens: Option<TokensEntry>,
    pub safes: Vec<String>,
    pub db_path: Option<String>,
}

#[verifier::ext_equal]
pub struct ConfigTomlView {
    pub addresses: Seq<(Seq<char>, Seq<char>)>,
    pub chains: Seq<(Seq<char>, Seq<char>)>,
    pub beacon: Option<(Option<Seq<char>>, Seq<u64>)>,
    pub csm: Option<Seq<u64>>,
    pub tokens: Option<Seq<Seq<char>>>,
    pub safes: Seq<Seq<char>>,
    pub db_path: Option<Seq<char>>,
}

pub open spec fn entries_view(v: Seq<AddressEntry>) -> Seq<(Seq<char>, Seq<char>)> {
    v.map_values(|e: AddressEntry| (e.alias@, e.address@))
}

pub open spec fn chain_entries_view(v: Seq<(String, ChainEntry)>) -> Seq<(Seq<char>, Seq<char>)> {
    v.map_values(|e: (String, ChainEntry)| (e.0@, e.1.rpc_url@))
}

impl View for ConfigToml {
    type V = ConfigTomlView;

    open spec fn view(&self) -> ConfigTomlView {
        ConfigTomlView {
            addresses: entries_view(self.addresses@),
            chains: chain_entries_view(self.chains@),
            beacon: match self.beacon {
                Some(b) => Some((opt_str(b.url), b.validator_indices@)),
                None => None,
            },
            csm: match self.csm {
                Some(c) => Some(c.operator_ids@),
                None => None,
            },
            tokens: match self.tokens {
                Some(t) => Some(strings_view(t.whitelist@)),
                None => None,
            },
            safes: strings_view(self.safes@),
            db_path: opt_str(self.db_path),
        }
    }
}

/// The trimmed text, if it is not blank.
pub open spec fn trimmed_nonblank(o: Option<Seq<char>>) -> Option<Seq<char>> {
    match o {
        Some(s) => if trim(s).len() > 0 {
            Some(trim(s))
        } else {
            None
        },
        None => None,
    }
}

/// The first chain key that names no chain.
pub open spec fn first_unknown_chain(entries: Seq<(Seq<char>, Seq<char>)>) -> Option<Seq<char>>
    decreases entries.len(),
{
    if entries.len() == 0 {
        None
    } else if chain_by_name_spec(entries[0].0) is None {
        Some(entries[0].0)
    } else {
        first_unknown_chain(entries.drop_first())
    }
}

/// The URL of the last table named after `c`.
pub open spec fn url_for(entries: Seq<(Seq<char>, Seq<char>)>, c: Chain) -> Option<Seq<char>>
    decreases entries.len(),
{
    if entries.len() == 0 {
        None
    } else if entries.last().0 == chain_name_spec(c) {
        Some(entries.last().1)
    } else {
        url_for(entries.drop_last(), c)
    }
}

/// The chains of the file: each named chain with a non-blank URL, trimmed.
pub open spec fn toml_chains(entries: Seq<(Seq<char>, Seq<char>)>) -> ChainMapView {
    ChainMapView {
        mainnet: trimmed_nonblank(url_for(entries, Chain::Mainnet)),
        arbitrum: trimmed_nonblank(url_for(entries, Chain::Arbitrum)),
        optimism: trimmed_nonblank(url_for(entries, Chain::Optimism)),
        base: trimmed_nonblank(url_for(entries, Chain::Base)),
    }
}

/// The safes of the file: trimmed, blanks skipped, each an alias of
/// `addrs`; a set.
pub open spec fn toml_safes_fold(safes: Seq<Seq<char>>, addrs: Seq<(Seq<char>, Address)>) -> Result<
    Seq<Seq<char>>,
    ConfigErrorView,
>
    decreases safes.len(),
{
    if safes.len() == 0 {
        Ok(seq![])
    } else {
        match toml_safes_fold(safes.drop_last(), addrs) {
            Err(e) => Err(e),
            Ok(set) => {
                let a = trim(safes.last());
                if a.len() == 0 {
                    Ok(set)
                } else if !has_key(addrs, a) {
                    Err(ConfigErrorView::UnknownSafe(a))
                } else {
                    Ok(set_insert(set, a))
                }
            },
        }
    }
}

/// What reading the file's tables gives.
pub open spec fn into_config_spec(t: ConfigTomlView) -> Result<ConfigView, ConfigErrorView> {
    match toml_entries_fold(t.addresses) {
        Err(e) => Err(e),
        Ok(addrs) => if addrs.len() == 0 {
            Err(ConfigErrorView::NoAddresses)
        } else {
            match first_unknown_chain(t.chains) {
                Some(k) => Err(ConfigErrorView::UnknownChain(k)),
                None => match toml_safes_fold(t.safes, addrs) {
                    Err(e) => Err(e),
                    Ok(safes) => Ok(
                        ConfigView {
                            addresses: addrs,
                            chains: toml_chains(t.chains),
                            etherscan_api_key: None,
                            beacon_url: match t.beacon {
                                Some(b) => trimmed_nonblank(b.0),
                                None => None,
                            },
                            validator_indices: match t.beacon {
                                Some(b) => b.1,
                                None => seq![],
                            },
                            csm_operator_ids: match t.csm {
                                Some(c) => c,
                                None => seq![],
                            },
                            token_whitelist: match t.tokens {
                                Some(w) => w,
                                None => seq![],
                            },
                            safes,
                            db_path_override: trimmed_nonblank(t.db_path),
                        },
                    ),
                },
            }
        },
    }
}

proof fn lemma_url_for_last(entries: Seq<(Seq<char>, Seq<char>)>, c: Chain, i: int)
    requires
        0 <= i < entries.len(),
        entries[i].0 == chain_name_spec(c),
        forall|j: int| i < j < entries.len() ==> #[trigger] entries[j].0 != chain_name_spec(c),
    ensures
        url_for(entries, c) == Some(entries[i].1),
    decreases entries.len(),
{
    if i < entries.len() - 1 {
        assert(entries.last() == entries[entries.len() - 1]);
        assert forall|j: int| i < j < entries.drop_last().len() implies #[trigger] entries.drop_last()[j].0
            != chain_name_spec(c) by {
            assert(entries.drop_last()[j] == entries[j]);
        }
        lemma_url_for_last(entries.drop_last(), c, i);
    }
}

proof fn lemma_url_for_none(entries: Seq<(Seq<char>, Seq<char>)>, c: Chain)
    requires
        forall|j: int| 0 <= j < entries.len() ==> #[trigger] entries[j].0 != chain_name_spec(c),
    ensures
        url_for(entries, c) is None,
    decreases entries.len(),
{
    if entries.len() > 0 {
        assert(entries.last() == entries[entries.len() - 1]);
        assert forall|j: int| 0 <= j < entries.drop_last().len() implies #[trigger] entries.drop_last()[j].0
            != chain_name_spec(c) by {
            assert(entries.drop_last()[j] == entries[j]);
        }
        lemma_url_for_none(entries.drop_last(), c);
    }
}

/// A configuration read from the file gives chain `c` the URL of the last
/// `[chains.<name>]` table named after `c`, trimmed (none if blank).
pub proof fn law_file_rpc_from_own_table(t: ConfigTomlView, c: Chain, i: int)
    requires
        into_config_spec(t) is Ok,
        0 <= i < t.chains.len(),
        t.chains[i].0 == chain_name_spec(c),
        forall|j: int| i < j < t.chains.len() ==> #[trigger] t.chains[j].0 != chain_name_spec(c),
    ensures
        chain_url(into_config_spec(t)->Ok_0.chains, c) == trimmed_nonblank(Some(t.chains[i].1)),
{
    lemma_url_for_last(t.chains, c, i);
}

/// A configuration read from the file leaves out a chain that has no
/// table of its name.
pub proof fn law_file_chain_without_table(t: ConfigTomlView, c: Chain)
    requires
        into_config_spec(t) is Ok,
        forall|j: int| 0 <= j < t.chains.len() ==> #[trigger] t.chains[j].0 != chain_name_spec(c),
    ensures
        chain_url(into_config_spec(t)->Ok_0.chains, c) is None,
{
    lemma_url_for_none(t.chains, c);
}

pub(crate) fn copy_str(s: &String) -> (r: String)
    ensures
        r@ == s@,
{
    string_of(&chars_of(s.as_str()))
}

pub(crate) fn trimmed_text(o: &Option<String>) -> (r: Option<String>)
    ensures
        opt_str(r) == trimmed_nonblank(opt_str(*o)),
{
    match o {
        Some(s) => {
            let t = trim_chars(&chars_of(s.as_str()));
            if t.len() > 0 {
                Some(string_of(&t))
            } else {
                None
            }
        },
        None => None,
    }
}

/// The chain named exactly `key`.
fn chain_named(key: &Vec<char>) -> (r: Option<Chain>)
    ensures
        r == chain_by_name_spec(key@),
{
    let all = Chain::all();
    let mut i: usize = 0;
    while i < all.len()
        invariant
            all@ == all_chains_spec(),
            i <= 4,
            forall|k: int| 0 <= k < i ==> key@ != chain_name_spec(#[trigger] all_chains_spec()[k]),
        decreases 4 - i,
    {
        let c = all[i];
        if chars_equal(&chars_of(c.name()), key) {
            return Some(c);
        }
        i = i + 1;
    }
    assert(key@ != chain_name_spec(all_chains_spec()[0]));
    assert(key@ != chain_name_spec(all_chains_spec()[1]));
    assert(key@ != chain_name_spec(all_chains_spec()[2]));
    assert(key@ != chain_name_spec(all_chains_spec()[3]));
    None
}

fn url_of(entries: &Vec<(String, ChainEntry)>, c: Chain) -> (r: Option<String>)
    ensures
        opt_str(r) == url_for(chain_entries_view(entries@), c),
{
    let ghost ev = chain_entries_view(entries@);
    let name = chars_of(c.name());
    let mut i: usize = entries.len();
    assert(ev.take(i as int) =~= ev);
    while i > 0
        invariant
            i <= entries@.len() == ev.len(),
            ev == chain_entries_view(entries@),
            name@ == chain_name_spec(c),
            url_for(ev.take(i as int), c) == url_for(ev, c),
        decreases i,
    {
        let e = &entries[i - 1];
        assert(ev.take(i as int).last() == (e.0@, e.1.rpc_url@));
        if chars_equal(&chars_of(e.0.as_str()), &name) {
            return Some(copy_str(&e.1.rpc_url));
        }
        assert(ev.take(i as int).drop_last() =~= ev.take(i - 1));
        i = i - 1;
    }
    None
}

fn file_chain(map: &mut ChainMap, entries: &Vec<(String, ChainEntry)>, c: Chain)
    ensures
        final(map)@ == match trimmed_nonblank(url_for(chain_entries_view(entries@), c)) {
            Some(u) => with_chain(old(map)@, c, u),
            None => old(map)@,
        },
{
    let url = url_of(entries, c);
    match trimmed_text(&url) {
        Some(u) => map.insert(c, ChainConfig { rpc_url: u }),
        None => {},
    }
}

impl ConfigToml {
    /// Reads the file's tables into a configuration, checking what loading
    /// from the environment checks: aliases present and unique, valid
    /// addresses, at least one address, known chain names, safes that name
    /// configured aliases. The file never holds an explorer API key.
    pub fn into_config(self) -> (r: Result<Config, ConfigError>)
        ensures
            result_view(r, |c: Config| c@) == into_config_spec(self@),
            r matches Ok(c) ==> config_wf(c@),
    {
        let ghost tv = self@;
        // Addresses.
        let ghost ev = entries_view(self.addresses@);
        let mut addresses: Vec<(String, Address)> = Vec::new();
        assert(ev.take(0) =~= Seq::<(Seq<char>, Seq<char>)>::empty());
        assert(pairs_view(addresses@) =~= Seq::<(Seq<char>, Address)>::empty());
        let mut i: usize = 0;
        while i < self.addresses.len()
            invariant
                i <= self.addresses@.len() == ev.len(),
                ev == entries_view(self.addresses@),
                keys_sorted(pairs_view(addresses@)),
                toml_entries_fold(ev.take(i as int)) == Ok::<Seq<(Seq<char>, Address)>, ConfigErrorView>(pairs_view(addresses@)),
            decreases self.addresses@.len() - i,
        {
            assert(ev.take(i + 1).drop_last() =~= ev.take(i as int));
            assert(ev.take(i + 1).last() == ev[i as int]);
            let entry = &self.addresses[i];
            let alias = trim_chars(&chars_of(entry.alias.as_str()));
            if alias.len() == 0 {
                proof {
                    lemma_toml_fold_err(ev, i + 1, ConfigErrorView::EntryWithoutAlias);
                }
                return Err(ConfigError::EntryWithoutAlias);
            }
            let text = string_of(&trim_chars(&chars_of(entry.address.as_str())));
            match parse_address(text.as_str()) {
                None => {
                    let e = ConfigError::InvalidAddress { alias: string_of(&alias), address: copy_str(&entry.address) };
                    proof {
                        lemma_toml_fold_err(ev, i + 1, e@);
                    }
                    return Err(e);
                },
                Some(a) => {
                    if !insert_alias(&mut addresses, &alias, a) {
                        let e = ConfigError::DuplicateAlias(string_of(&alias));
                        proof {
                            lemma_toml_fold_err(ev, i + 1, e@);
                        }
                        return Err(e);
                    }
                },
            }
            i = i + 1;
        }
        assert(ev.take(self.addresses@.len() as int) =~= ev);
        if addresses.len() == 0 {
            return Err(ConfigError::NoAddresses);
        }
        // Chain keys.
        let ghost cv = chain_entries_view(self.chains@);
        let mut j: usize = 0;
        assert(cv.skip(0) =~= cv);
        while j < self.chains.len()
            invariant
                j <= self.chains@.len() == cv.len(),
                cv == chain_entries_view(self.chains@),
                tv == self@,
                toml_entries_fold(tv.addresses) == Ok::<Seq<(Seq<char>, Address)>, ConfigErrorView>(pairs_view(addresses@)),
                addresses@.len() > 0,
                first_unknown_chain(cv.skip(j as int)) == first_unknown_chain(cv),
            decreases self.chains@.len() - j,
        {
            assert(cv.skip(j as int)[0] == cv[j as int]);
            let key = chars_of(self.chains[j].0.as_str());
            if chain_named(&key).is_none() {
                return Err(ConfigError::UnknownChain(string_of(&key)));
            }
            assert(cv.skip(j as int).drop_first() =~= cv.skip(j + 1));
            j = j + 1;
        }
        assert(cv.skip(j as int) =~= Seq::<(Seq<char>, Seq<char>)>::empty());
        let mut chains = ChainMap::new();
        file_chain(&mut chains, &self.chains, Chain::Mainnet);
        file_chain(&mut chains, &self.chains, Chain::Arbitrum);
        file_chain(&mut chains, &self.chains, Chain::Optimism);
        file_chain(&mut chains, &self.chains, Chain::Base);
        assert(chains@ =~~= toml_chains(cv));
        // Safes.
        let ghost sv = strings_view(self.safes@);
        let ghost av = pairs_view(addresses@);
        let mut safes: Vec<String> = Vec::new();
        assert(sv.take(0) =~= Seq::<Seq<char>>::empty());
        assert(strings_view(safes@) =~= Seq::<Seq<char>>::empty());
        let mut k: usize = 0;
        while k < self.safes.len()
            invariant
                k <= self.safes@.len() == sv.len(),
                sv == strings_view(self.safes@),
                av == pairs_view(addresses@),
                tv == self@,
                toml_entries_fold(tv.addresses) == Ok::<Seq<(Seq<char>, Address)>, ConfigErrorView>(av),
                av.len() > 0,
                first_unknown_chain(tv.chains) is None,
                keys_sorted(av),
                strs_sorted(strings_view(safes@)),
                toml_safes_fold(sv.take(k as int), av) == Ok::<Seq<Seq<char>>, ConfigErrorView>(strings_view(safes@)),
            decreases self.safes@.len() - k,
        {
            assert(sv.take(k + 1).drop_last() =~= sv.take(k as int));
            assert(sv.take(k + 1).last() == sv[k as int]);
            let a = trim_chars(&chars_of(self.safes[k].as_str()));
            if a.len() > 0 {
                let (_, known) = find_key(&addresses, &a);
                if !known {
                    let e = ConfigError::UnknownSafe(string_of(&a));
                    proof {
                        lemma_safes_fold_err(sv, av, k + 1, e@);
                    }
                    return Err(e);
                }
                insert_name(&mut safes, &a);
            }
            k = k + 1;
        }
        assert(sv.take(self.safes@.len() as int) =~= sv);
        let beacon_url = match &self.beacon {
            Some(b) => trimmed_text(&b.url),
            None => None,
        };
        let db_path_override = trimmed_text(&self.db_path);
        let validator_indices = match self.beacon {
            Some(b) => b.validator_indices,
            None => Vec::new(),
        };
        let csm_operator_ids = match self.csm {
            Some(c) => c.operator_ids,
            None => Vec::new(),
        };
        let token_whitelist = match self.tokens {
            Some(t) => t.whitelist,
            None => Vec::new(),
        };
        let cfg = Config {
            addresses,
            chains,
            etherscan_api_key: None,
            beacon_url,
            validator_indices,
            csm_operator_ids,
            token_whitelist,
            safes,
            db_path_override,
        };
        assert(cfg@ =~~= into_config_spec(tv)->Ok_0);
        Ok(cfg)
    }
}

proof fn lemma_safes_fold_err(safes: Seq<Seq<char>>, addrs: Seq<(Seq<char>, Address)>, i: int, e: ConfigErrorView)
    requires
        0 <= i <= safes.len(),
        toml_safes_fold(safes.take(i), addrs) == Err::<Seq<Seq<char>>, ConfigErrorView>(e),
    ensures
        toml_safes_fold(safes, addrs) == Err::<Seq<Seq<char>>, ConfigErrorView>(e),
    decreases safes.len() - i,
{
    if i < safes.len() {
        assert(safes.take(i + 1).drop_last() =~= safes.take(i));
        lemma_safes_fold_err(safes, addrs, i + 1, e);
    } else {
        assert(safes.take(i) =~= safes);
    }
}

/// Adds `x` to the sorted set `v` (no change if present).
pub(crate) fn insert_name(v: &mut Vec<String>, x: &Vec<char>)
    requires
        strs_sorted(strings_view(old(v)@)),
    ensures
        strings_view(final(v)@) == set_insert(strings_view(old(v)@), x@),
        strs_sorted(strings_view(final(v)@)),
{
    let ghost s = strings_view(v@);
    proof {
        lemma_set_insert_sorted(s, x@);
        lemma_lower_bound(as_keyed(s), x@);
    }
    let (p, found) = find_str(v, x);
    if !found {
        assert(as_keyed(s).len() == s.len());
        v.insert(p, string_of(x));
        assert(strings_view(v@) =~= s.insert(p as int, x@));
    }
}


/// The order of the file's chain tables: by chain name.
pub open spec fn name_order() -> Seq<Chain> {
    seq![Chain::Arbitrum, Chain::Base, Chain::Mainnet, Chain::Optimism]
}

/// A chain table for each configured chain of `order`, in that order.
pub open spec fn toml_chain_entries(m: ChainMapView, order: Seq<Chain>) -> Seq<(Seq<char>, Seq<char>)>
    decreases order.len(),
{
    if order.len() == 0 {
        seq![]
    } else {
        let rest = toml_chain_entries(m, order.drop_last());
        let c = order.last();
        match chain_url(m, c) {
            Some(u) => rest.push((chain_name_spec(c), u)),
            None => rest,
        }
    }
}

/// The file form of a configuration.
pub open spec fn from_config_spec(c: ConfigView) -> ConfigTomlView {
    ConfigTomlView {
        addresses: c.addresses.map_values(|e: (Seq<char>, Address)| (e.0, address_hex(e.1))),
        chains: toml_chain_entries(c.chains, name_order()),
        beacon: if c.beacon_url is Some || c.validator_indices.len() > 0 {
            Some((c.beacon_url, c.validator_indices))
        } else {
            None
        },
        csm: if c.csm_operator_ids.len() == 0 {
            None
        } else {
            Some(c.csm_operator_ids)
        },
        tokens: if c.token_whitelist.len() == 0 {
            None
        } else {
            Some(c.token_whitelist)
        },
        safes: c.safes,
        db_path: c.db_path_override,
    }
}

pub(crate) fn copy_opt(o: &Option<String>) -> (r: Option<String>)
    ensures
        opt_str(r) == opt_str(*o),
{
    match o {
        Some(s) => Some(copy_str(s)),
        None => None,
    }
}

pub(crate) fn copy_strings(v: &Vec<String>) -> (r: Vec<String>)
    ensures
        strings_view(r@) == strings_view(v@),
{
    let mut r: Vec<String> = Vec::new();
    let mut i: usize = 0;
    while i < v.len()
        invariant
            i <= v@.len(),
            strings_view(r@) == strings_view(v@).take(i as int),
        decreases v@.len() - i,
    {
        let ghost before = strings_view(r@);
        let x = copy_str(&v[i]);
        r.push(x);
        assert(strings_view(r@) =~= before.push(x@));
        i = i + 1;
        assert(strings_view(r@) =~= strings_view(v@).take(i as int));
    }
    assert(strings_view(v@).take(v@.len() as int) =~= strings_view(v@));
    r
}

fn copy_u64s(v: &Vec<u64>) -> (r: Vec<u64>)
    ensures
        r@ == v@,
{
    let mut r: Vec<u64> = Vec::new();
    let mut i: usize = 0;
    while i < v.len()
        invariant
            i <= v@.len(),
            r@ == v@.take(i as int),
        decreases v@.len() - i,
    {
        r.push(v[i]);
        i = i + 1;
        assert(r@ =~= v@.take(i as int));
    }
    assert(v@.take(v@.len() as int) =~= v@);
    r
}

fn push_chain_entry(out: &mut Vec<(String, ChainEntry)>, chains: &ChainMap, c: Chain)
    ensures
        chain_entries_view(final(out)@) == match chain_url(chains@, c) {
            Some(u) => chain_entries_view(old(out)@).push((chain_name_spec(c), u)),
            None => chain_entries_view(old(out)@),
        },
{
    match chains.get(c) {
        Some(cc) => {
            let ghost before = chain_entries_view(out@);
            let name = string_of(&chars_of(c.name()));
            out.push((name, ChainEntry { rpc_url: copy_str(&cc.rpc_url) }));
            assert(chain_entries_view(out@) =~= before.push((chain_name_spec(c), cc.rpc_url@)));
        },
        None => {},
    }
}

impl ConfigToml {
    /// The file form of a configuration: address hex in lowercase with
    /// `0x`, chain tables named by chain, and the beacon, CSM and token
    /// tables only when they hold something. The explorer API key is not
    /// written.
    pub fn from_config(cfg: &Config) -> (r: ConfigToml)
        ensures
            r@ == from_config_spec(cfg@),
    {
        let ghost av = pairs_view(cfg.addresses@);
        let mut addresses: Vec<AddressEntry> = Vec::new();
        let mut i: usize = 0;
        while i < cfg.addresses.len()
            invariant
                i <= cfg.addresses@.len(),
                av == pairs_view(cfg.addresses@),
                entries_view(addresses@) == av.take(i as int).map_values(
                    |e: (Seq<char>, Address)| (e.0, address_hex(e.1)),
                ),
            decreases cfg.addresses@.len() - i,
        {
            let e = &cfg.addresses[i];
            let ghost before = entries_view(addresses@);
            let entry = AddressEntry { alias: copy_str(&e.0), address: address_to_hex(e.1) };
            addresses.push(entry);
            assert(entries_view(addresses@) =~= before.push((e.0@, address_hex(e.1))));
            assert(av[i as int] == (e.0@, e.1));
            i = i + 1;
            assert(entries_view(addresses@) =~= av.take(i as int).map_values(
                |e: (Seq<char>, Address)| (e.0, address_hex(e.1)),
            ));
        }
        assert(av.take(cfg.addresses@.len() as int) =~= av);
        let ghost o = name_order();
        let ghost m = cfg.chains@;
        let mut chains: Vec<(String, ChainEntry)> = Vec::new();
        assert(o.take(0) =~= Seq::<Chain>::empty());
        assert(chain_entries_view(chains@) =~= toml_chain_entries(m, o.take(0)));
        push_chain_entry(&mut chains, &cfg.chains, Chain::Arbitrum);
        assert(o.take(1).drop_last() =~= o.take(0) && o.take(1).last() == Chain::Arbitrum);
        assert(chain_entries_view(chains@) == toml_chain_entries(m, o.take(1)));
        push_chain_entry(&mut chains, &cfg.chains, Chain::Base);
        assert(o.take(2).drop_last() =~= o.take(1) && o.take(2).last() == Chain::Base);
        assert(chain_entries_view(chains@) == toml_chain_entries(m, o.take(2)));
        push_chain_entry(&mut chains, &cfg.chains, Chain::Mainnet);
        assert(o.take(3).drop_last() =~= o.take(2) && o.take(3).last() == Chain::Mainnet);
        assert(chain_entries_view(chains@) == toml_chain_entries(m, o.take(3)));
        push_chain_entry(&mut chains, &cfg.chains, Chain::Optimism);
        assert(o.take(4).drop_last() =~= o.take(3) && o.take(4).last() == Chain::Optimism);
        assert(o.take(4) =~= o);
        assert(chain_entries_view(chains@) == toml_chain_entries(m, o));
        let beacon = if cfg.beacon_url.is_some() || cfg.validator_indices.len() > 0 {
            Some(BeaconEntry { url: copy_opt(&cfg.beacon_url), validator_indices: copy_u64s(&cfg.validator_indices) })
        } else {
            None
        };
        let csm = if cfg.csm_operator_ids.len() == 0 {
            None
        } else {
            Some(CsmEntry { operator_ids: copy_u64s(&cfg.csm_operator_ids) })
        };
        let tokens = if cfg.token_whitelist.len() == 0 {
            None
        } else {
            Some(TokensEntry { whitelist: copy_strings(&cfg.token_whitelist) })
        };
        let r = ConfigToml {
            addresses,
            chains,
            beacon,
            csm,
            tokens,
            safes: copy_strings(&cfg.safes),
            db_path: copy_opt(&cfg.db_path_override),
        };
        assert(r@ =~~= from_config_spec(cfg@));
        r
    }
}


// ---------------------------------------------------------------------------
// Writing and reading back
// ---------------------------------------------------------------------------

/// A configuration that the file form holds exactly: at least one address,
/// and every alias, URL, safe and path already trimmed and not blank, each
/// safe an alias.
pub open spec fn file_faithful(c: ConfigView) -> bool {
    &&& config_wf(c)
    &&& c.addresses.len() > 0
    &&& forall|i: int| 0 <= i < c.addresses.len() ==> trim(#[trigger] c.addresses[i].0) == c.addresses[i].0
        && c.addresses[i].0.len() > 0
    &&& forall|ch: Chain| #[trigger] chain_url(c.chains, ch) matches Some(u) ==> trim(u) == u && u.len() > 0
    &&& c.beacon_url matches Some(u) ==> trim(u) == u && u.len() > 0
    &&& forall|i: int| 0 <= i < c.safes.len() ==> trim(#[trigger] c.safes[i]) == c.safes[i] && c.safes[i].len() > 0
        && has_key(c.addresses, c.safes[i])
    &&& c.db_path_override matches Some(p) ==> trim(p) == p && p.len() > 0
}

pub(crate) proof fn lemma_trim_hex(a: Address)
    ensures
        trim(address_hex(a)) == address_hex(a),
{
    let s = address_hex(a);
    crate::primitives::law_address_hex_parses(a);
    crate::primitives::lemma_hex_len(a@, 40);
    assert(s[0] == '0');
    assert(!crate::text::is_ws(s[0]));
    assert(crate::text::trim_start(s) == s);
    let l = s.last();
    assert(l == s.skip(2)[39]);
    assert(crate::primitives::is_hex_char(l));
    assert(!crate::text::is_ws(l));
}

proof fn lemma_addresses_back(a: Seq<(Seq<char>, Address)>, k: int)
    requires
        0 <= k <= a.len(),
        keys_sorted(a),
        forall|i: int| 0 <= i < a.len() ==> trim(#[trigger] a[i].0) == a[i].0 && a[i].0.len() > 0,
    ensures
        toml_entries_fold(a.map_values(|e: (Seq<char>, Address)| (e.0, address_hex(e.1))).take(k))
            == Ok::<Seq<(Seq<char>, Address)>, ConfigErrorView>(a.take(k)),
    decreases k,
{
    let e = a.map_values(|e: (Seq<char>, Address)| (e.0, address_hex(e.1)));
    if k == 0 {
        assert(e.take(0) =~= Seq::<(Seq<char>, Seq<char>)>::empty());
        assert(a.take(0) =~= Seq::<(Seq<char>, Address)>::empty());
    } else {
        lemma_addresses_back(a, k - 1);
        assert(e.take(k).drop_last() =~= e.take(k - 1));
        let t = a.take(k - 1);
        let (alias, addr) = a[k - 1];
        assert(e.take(k).last() == (alias, address_hex(addr)));
        assert(trim(alias) == alias && alias.len() > 0);
        lemma_trim_hex(addr);
        crate::primitives::law_address_hex_parses(addr);
        assert(keys_sorted(t)) by {
            assert forall|i: int, j: int| 0 <= i < j < t.len() implies crate::text::seq_lt(#[trigger] t[i].0, #[trigger] t[j].0) by {
                assert(t[i] == a[i] && t[j] == a[j]);
            }
        }
        lemma_lower_bound(t, alias);
        assert forall|i: int| 0 <= i < t.len() implies crate::text::seq_lt(#[trigger] t[i].0, alias) by {
            assert(t[i] == a[i]);
        }
        assert(!has_key(t, alias)) by {
            if has_key(t, alias) {
                let w = choose|i: int| 0 <= i < t.len() && #[trigger] t[i].0 == alias;
                assert(crate::text::seq_lt(t[w].0, alias));
                crate::text::lemma_seq_lt_irrefl(alias);
            }
        }
        let p = key_lower_bound(t, alias);
        if p < t.len() {
            assert(crate::text::seq_lt(t[p].0, alias));
        }
        assert(p == t.len());
        assert(insert_key(t, alias, addr) =~= a.take(k));
    }
}

proof fn lemma_url_for_entries(m: ChainMapView, order: Seq<Chain>, c: Chain)
    ensures
        url_for(toml_chain_entries(m, order), c) == if order.contains(c) {
            chain_url(m, c)
        } else {
            None
        },
    decreases order.len(),
{
    if order.len() > 0 {
        let d = order.last();
        lemma_url_for_entries(m, order.drop_last(), c);
        crate::chain::law_names_distinct_and_lowercase(d, c);
        assert(order.contains(c) <==> (d == c || order.drop_last().contains(c))) by {
            if order.contains(c) {
                let w = choose|i: int| 0 <= i < order.len() && order[i] == c;
                if w < order.len() - 1 {
                    assert(order.drop_last()[w] == c);
                }
            }
            if order.drop_last().contains(c) {
                let w = choose|i: int| 0 <= i < order.drop_last().len() && order.drop_last()[i] == c;
                assert(order[w] == c);
            }
            if d == c {
                assert(order[order.len() - 1] == c);
            }
        }
        let rest = toml_chain_entries(m, order.drop_last());
        match chain_url(m, d) {
            Some(u) => {
                assert(rest.push((chain_name_spec(d), u)).drop_last() =~= rest);
            },
            None => {},
        }
    } else {
        assert(!order.contains(c));
    }
}

proof fn lemma_entries_known(m: ChainMapView, order: Seq<Chain>)
    ensures
        forall|i: int| 0 <= i < toml_chain_entries(m, order).len() ==> chain_by_name_spec(
            #[trigger] toml_chain_entries(m, order)[i].0,
        ) is Some,
    decreases order.len(),
{
    if order.len() > 0 {
        lemma_entries_known(m, order.drop_last());
        let d = order.last();
        crate::chain::law_names_distinct_and_lowercase(d, d);
        let rest = toml_chain_entries(m, order.drop_last());
        let r = toml_chain_entries(m, order);
        assert forall|i: int| 0 <= i < r.len() implies chain_by_name_spec(#[trigger] r[i].0) is Some by {
            if i < rest.len() {
                assert(r[i] == rest[i]);
            }
        }
    }
}

proof fn lemma_no_unknown(entries: Seq<(Seq<char>, Seq<char>)>)
    requires
        forall|i: int| 0 <= i < entries.len() ==> chain_by_name_spec(#[trigger] entries[i].0) is Some,
    ensures
        first_unknown_chain(entries) is None,
    decreases entries.len(),
{
    if entries.len() > 0 {
        let d = entries.drop_first();
        assert forall|i: int| 0 <= i < d.len() implies chain_by_name_spec(#[trigger] d[i].0) is Some by {
            assert(d[i] == entries[i + 1]);
        }
        assert(chain_by_name_spec(entries[0].0) is Some);
        lemma_no_unknown(d);
    }
}

proof fn lemma_safes_back(s: Seq<Seq<char>>, a: Seq<(Seq<char>, Address)>, k: int)
    requires
        0 <= k <= s.len(),
        strs_sorted(s),
        forall|i: int| 0 <= i < s.len() ==> trim(#[trigger] s[i]) == s[i] && s[i].len() > 0 && has_key(a, s[i]),
    ensures
        toml_safes_fold(s.take(k), a) == Ok::<Seq<Seq<char>>, ConfigErrorView>(s.take(k)),
    decreases k,
{
    if k == 0 {
        assert(s.take(0) =~= Seq::<Seq<char>>::empty());
    } else {
        lemma_safes_back(s, a, k - 1);
        assert(s.take(k).drop_last() =~= s.take(k - 1));
        let t = s.take(k - 1);
        let x = s[k - 1];
        assert(s.take(k).last() == x);
        assert(trim(x) == x && x.len() > 0 && has_key(a, x));
        assert(strs_sorted(t)) by {
            assert forall|i: int, j: int| 0 <= i < j < t.len() implies crate::text::seq_lt(#[trigger] t[i], #[trigger] t[j]) by {
                assert(t[i] == s[i] && t[j] == s[j]);
            }
        }
        assert(!t.contains(x)) by {
            if t.contains(x) {
                let w = choose|i: int| 0 <= i < t.len() && t[i] == x;
                assert(crate::text::seq_lt(s[w], s[k - 1]));
                crate::text::lemma_seq_lt_irrefl(x);
            }
        }
        crate::keyed::lemma_as_keyed::<()>(t);
        let kt = as_keyed(t);
        lemma_lower_bound(kt, x);
        let p = key_lower_bound(kt, x);
        if p < kt.len() {
            assert(kt[p].0 == t[p]);
            assert(crate::text::seq_lt(s[p], s[k - 1]));
        }
        assert(p == t.len());
        assert(set_insert(t, x) =~= s.take(k));
    }
}

/// Writing a configuration to the file form and reading it back gives the
/// same configuration, but for the explorer API key, which the file does
/// not hold.
pub proof fn law_file_roundtrip(c: ConfigView)
    requires
        file_faithful(c),
    ensures
        into_config_spec(from_config_spec(c)) == Ok::<ConfigView, ConfigErrorView>(ConfigView { etherscan_api_key: None, ..c }),
{
    let t = from_config_spec(c);
    lemma_addresses_back(c.addresses, c.addresses.len() as int);
    assert(t.addresses.take(t.addresses.len() as int) =~= t.addresses);
    assert(c.addresses.take(c.addresses.len() as int) =~= c.addresses);
    lemma_entries_known(c.chains, name_order());
    lemma_no_unknown(t.chains);
    lemma_safes_back(c.safes, c.addresses, c.safes.len() as int);
    assert(c.safes.take(c.safes.len() as int) =~= c.safes);
    let o = name_order();
    assert(o[2] == Chain::Mainnet && o[0] == Chain::Arbitrum && o[3] == Chain::Optimism && o[1] == Chain::Base);
    lemma_url_for_entries(c.chains, o, Chain::Mainnet);
    lemma_url_for_entries(c.chains, o, Chain::Arbitrum);
    lemma_url_for_entries(c.chains, o, Chain::Optimism);
    lemma_url_for_entries(c.chains, o, Chain::Base);
    assert(chain_url(c.chains, Chain::Mainnet) == c.chains.mainnet);
    assert(chain_url(c.chains, Chain::Arbitrum) == c.chains.arbitrum);
    assert(chain_url(c.chains, Chain::Optimism) == c.chains.optimism);
    assert(chain_url(c.chains, Chain::Base) == c.chains.base);
    assert(toml_chains(t.chains) =~~= c.chains);
    let r = into_config_spec(t);
    assert(r->Ok_0 =~~= ConfigView { etherscan_api_key: None, ..c });
}


// ---------------------------------------------------------------------------
// The environment form
// ---------------------------------------------------------------------------

/// The configuration's environment settings as read, `None` where unset.
#[derive(Debug)]
pub struct ConfigEnv {
    pub addresses: Option<String>,
    pub rpc_mainnet: Option<String>,
    pub rpc_arbitrum: Option<String>,
    pub rpc_optimism: Option<String>,
    pub rpc_base: Option<String>,
    pub etherscan_api_key: Option<String>,
    pub beacon_url: Option<String>,
    pub validator_indices: Option<String>,
    pub csm_operator_ids: Option<String>,
    pub token_whitelist: Option<String>,
    pub safes: Option<String>,
    pub db_path: Option<String>,
}

pub struct ConfigEnvView {
    pub addresses: Option<Seq<char>>,
    pub rpc_mainnet: Option<Seq<char>>,
    pub rpc_arbitrum: Option<Seq<char>>,
    pub rpc_optimism: Option<Seq<char>>,
    pub rpc_base: Option<Seq<char>>,
    pub etherscan_api_key: Option<Seq<char>>,
    pub beacon_url: Option<Seq<char>>,
    pub validator_indices: Option<Seq<char>>,
    pub csm_operator_ids: Option<Seq<char>>,
    pub token_whitelist: Option<Seq<char>>,
    pub safes: Option<Seq<char>>,
    pub db_path: Option<Seq<char>>,
}

impl View for ConfigEnv {
    type V = ConfigEnvView;

    open spec fn view(&self) -> ConfigEnvView {
        ConfigEnvView {
            addresses: opt_str(self.addresses),
            rpc_mainnet: opt_str(self.rpc_mainnet),
            rpc_arbitrum: opt_str(self.rpc_arbitrum),
            rpc_optimism: opt_str(self.rpc_optimism),
            rpc_base: opt_str(self.rpc_base),
            etherscan_api_key: opt_str(self.etherscan_api_key),
            beacon_url: opt_str(self.beacon_url),
            validator_indices: opt_str(self.validator_indices),
            csm_operator_ids: opt_str(self.csm_operator_ids),
            token_whitelist: opt_str(self.token_whitelist),
            safes: opt_str(self.safes),
            db_path: opt_str(self.db_path),
        }
    }
}

/// An RPC URL setting is used as given, unless it is blank.
pub open spec fn env_url(o: Option<Seq<char>>) -> Option<Seq<char>> {
    match o {
        Some(s) => if trim(s).len() > 0 {
            Some(s)
        } else {
            None
        },
        None => None,
    }
}

pub open spec fn env_chains(e: ConfigEnvView) -> ChainMapView {
    ChainMapView {
        mainnet: env_url(e.rpc_mainnet),
        arbitrum: env_url(e.rpc_arbitrum),
        optimism: env_url(e.rpc_optimism),
        base: env_url(e.rpc_base),
    }
}

pub open spec fn nonempty_text(o: Option<Seq<char>>) -> Option<Seq<char>> {
    match o {
        Some(s) => if s.len() > 0 {
            Some(s)
        } else {
            None
        },
        None => None,
    }
}

pub open spec fn opt_numbers(o: Option<Seq<char>>, what: Seq<char>) -> Result<Seq<u64>, ConfigErrorView> {
    match o {
        Some(s) => numbers_spec(csv_items(s), what),
        None => Ok(seq![]),
    }
}

/// The items gathered into a set.
pub open spec fn set_of(items: Seq<Seq<char>>) -> Seq<Seq<char>>
    decreases items.len(),
{
    if items.len() == 0 {
        seq![]
    } else {
        set_insert(set_of(items.drop_last()), items.last())
    }
}

/// The first member of the set, in order, that is no alias of `addrs`.
pub open spec fn first_unknown_alias(set: Seq<Seq<char>>, addrs: Seq<(Seq<char>, Address)>) -> Option<Seq<char>>
    decreases set.len(),
{
    if set.len() == 0 {
        None
    } else if !has_key(addrs, set[0]) {
        Some(set[0])
    } else {
        first_unknown_alias(set.drop_first(), addrs)
    }
}

pub open spec fn env_safes(e: ConfigEnvView) -> Seq<Seq<char>> {
    match e.safes {
        Some(s) => set_of(csv_items(s)),
        None => seq![],
    }
}

/// What loading from the environment gives.
pub open spec fn load_spec(e: ConfigEnvView) -> Result<ConfigView, ConfigErrorView> {
    match e.addresses {
        None => Err(ConfigErrorView::AddressesUnset),
        Some(raw) => match parse_addresses_spec(raw) {
            Err(x) => Err(x),
            Ok(addrs) => match opt_numbers(e.validator_indices, "validator index"@) {
                Err(x) => Err(x),
                Ok(vi) => match opt_numbers(e.csm_operator_ids, "CSM operator id"@) {
                    Err(x) => Err(x),
                    Ok(ci) => match first_unknown_alias(env_safes(e), addrs) {
                        Some(a) => Err(ConfigErrorView::UnknownEnvSafe(a)),
                        None => Ok(
                            ConfigView {
                                addresses: addrs,
                                chains: env_chains(e),
                                etherscan_api_key: nonempty_text(e.etherscan_api_key),
                                beacon_url: trimmed_nonblank(e.beacon_url),
                                validator_indices: vi,
                                csm_operator_ids: ci,
                                token_whitelist: match e.token_whitelist {
                                    Some(s) => csv_items(s),
                                    None => seq![],
                                },
                                safes: env_safes(e),
                                db_path_override: trimmed_nonblank(e.db_path),
                            },
                        ),
                    },
                },
            },
        },
    }
}

/// The RPC setting held under the environment variable `name` (one of the
/// four `LPORTFOLIO_RPC_*` variables), if any.
pub open spec fn rpc_setting_named(e: ConfigEnvView, name: Seq<char>) -> Option<Seq<char>> {
    if name == rpc_env_key_spec(Chain::Mainnet) {
        e.rpc_mainnet
    } else if name == rpc_env_key_spec(Chain::Arbitrum) {
        e.rpc_arbitrum
    } else if name == rpc_env_key_spec(Chain::Optimism) {
        e.rpc_optimism
    } else if name == rpc_env_key_spec(Chain::Base) {
        e.rpc_base
    } else {
        None
    }
}

/// A loaded configuration gives each chain the URL set in that chain's own
/// variable (`rpc_env_key`), and leaves the chain out exactly when that
/// variable is unset or blank.
pub proof fn law_load_rpc_from_own_variable(e: ConfigEnvView, c: Chain)
    requires
        load_spec(e) is Ok,
    ensures
        chain_url(load_spec(e)->Ok_0.chains, c) == env_url(rpc_setting_named(e, rpc_env_key_spec(c))),
        chain_url(load_spec(e)->Ok_0.chains, c) is None <==> (rpc_setting_named(e, rpc_env_key_spec(c)) matches Some(
            s,
        ) ==> trim(s).len() == 0),
{
    let m = rpc_env_key_spec(Chain::Mainnet);
    let a = rpc_env_key_spec(Chain::Arbitrum);
    let o = rpc_env_key_spec(Chain::Optimism);
    let b = rpc_env_key_spec(Chain::Base);
    assert(m[15] == 'M' && a[15] == 'A' && o[15] == 'O' && b[15] == 'B');
    assert(m != a && m != o && m != b && a != o && a != b && o != b);
}

fn env_url_of(o: &Option<String>) -> (r: Option<ChainConfig>)
    ensures
        opt_url(r) == env_url(opt_str(*o)),
{
    match o {
        Some(s) => {
            let t = trim_chars(&chars_of(s.as_str()));
            if t.len() > 0 {
                Some(ChainConfig { rpc_url: copy_str(s) })
            } else {
                None
            }
        },
        None => None,
    }
}

fn numbers_of(o: &Option<String>, what: &str) -> (r: Result<Vec<u64>, ConfigError>)
    ensures
        result_view(r, |v: Vec<u64>| v@) == opt_numbers(opt_str(*o), what@),
{
    match o {
        Some(s) => parse_u64_list(s.as_str(), what),
        None => Ok(Vec::new()),
    }
}

/// The items gathered into a sorted set.
pub(crate) fn set_of_items(items: &Vec<String>) -> (r: Vec<String>)
    ensures
        strings_view(r@) == set_of(strings_view(items@)),
        strs_sorted(strings_view(r@)),
{
    let ghost iv = strings_view(items@);
    let mut r: Vec<String> = Vec::new();
    assert(iv.take(0) =~= Seq::<Seq<char>>::empty());
    assert(strings_view(r@) =~= Seq::<Seq<char>>::empty());
    let mut i: usize = 0;
    while i < items.len()
        invariant
            i <= items@.len() == iv.len(),
            iv == strings_view(items@),
            strs_sorted(strings_view(r@)),
            strings_view(r@) == set_of(iv.take(i as int)),
        decreases items@.len() - i,
    {
        assert(iv.take(i + 1).drop_last() =~= iv.take(i as int));
        assert(iv.take(i + 1).last() == iv[i as int]);
        insert_name(&mut r, &chars_of(items[i].as_str()));
        i = i + 1;
    }
    assert(iv.take(items@.len() as int) =~= iv);
    r
}

impl Config {
    /// The configuration from its environment settings: addresses are
    /// required; blank settings count as unset; lists are comma-separated
    /// with blank items skipped; every safe must be a configured alias.
    pub fn load(env: &ConfigEnv) -> (r: Result<Config, ConfigError>)
        ensures
            result_view(r, |c: Config| c@) == load_spec(env@),
            r matches Ok(c) ==> config_wf(c@),
    {
        let raw = match &env.addresses {
            Some(raw) => raw,
            None => {
                return Err(ConfigError::AddressesUnset);
            },
        };
        let addresses = match parse_addresses(raw.as_str()) {
            Ok(a) => a,
            Err(e) => {
                return Err(e);
            },
        };
        let mut chains = ChainMap::new();
        chains.mainnet = env_url_of(&env.rpc_mainnet);
        chains.arbitrum = env_url_of(&env.rpc_arbitrum);
        chains.optimism = env_url_of(&env.rpc_optimism);
        chains.base = env_url_of(&env.rpc_base);
        let etherscan_api_key = match &env.etherscan_api_key {
            Some(k) => if k.as_str().is_empty() {
                None
            } else {
                Some(copy_str(k))
            },
            None => None,
        };
        let beacon_url = trimmed_text(&env.beacon_url);
        proof {
            reveal_strlit("validator index");
            reveal_strlit("CSM operator id");
        }
        let validator_indices = match numbers_of(&env.validator_indices, "validator index") {
            Ok(v) => v,
            Err(e) => {
                return Err(e);
            },
        };
        let csm_operator_ids = match numbers_of(&env.csm_operator_ids, "CSM operator id") {
            Ok(v) => v,
            Err(e) => {
                return Err(e);
            },
        };
        let token_whitelist = match &env.token_whitelist {
            Some(s) => csv_list(s.as_str()),
            None => Vec::new(),
        };
        let safes = match &env.safes {
            Some(s) => set_of_items(&csv_list(s.as_str())),
            None => Vec::new(),
        };
        let ghost av = pairs_view(addresses@);
        let ghost sv = strings_view(safes@);
        let mut k: usize = 0;
        assert(sv.skip(0) =~= sv);
        while k < safes.len()
            invariant
                k <= safes@.len() == sv.len(),
                sv == strings_view(safes@),
                av == pairs_view(addresses@),
                keys_sorted(av),
                env@.addresses is Some,
                parse_addresses_spec(env@.addresses->Some_0) == Ok::<Seq<(Seq<char>, Address)>, ConfigErrorView>(av),
                opt_numbers(env@.validator_indices, "validator index"@) == Ok::<Seq<u64>, ConfigErrorView>(validator_indices@),
                opt_numbers(env@.csm_operator_ids, "CSM operator id"@) == Ok::<Seq<u64>, ConfigErrorView>(csm_operator_ids@),
                env_safes(env@) == sv,
                first_unknown_alias(sv.skip(k as int), av) == first_unknown_alias(sv, av),
            decreases safes@.len() - k,
        {
            assert(sv.skip(k as int)[0] == sv[k as int]);
            let a = chars_of(safes[k].as_str());
            let (_, known) = find_key(&addresses, &a);
            if !known {
                return Err(ConfigError::UnknownEnvSafe(string_of(&a)));
            }
            assert(sv.skip(k as int).drop_first() =~= sv.skip(k + 1));
            k = k + 1;
        }
        assert(sv.skip(k as int) =~= Seq::<Seq<char>>::empty());
        let db_path_override = trimmed_text(&env.db_path);
        let cfg = Config {
            addresses,
            chains,
            etherscan_api_key,
            beacon_url,
            validator_indices,
            csm_operator_ids,
            token_whitelist,
            safes,
            db_path_override,
        };
        assert(cfg.chains@ =~~= env_chains(env@));
        assert(cfg@ =~~= load_spec(env@)->Ok_0);
        Ok(cfg)
    }
}

} // verus!
