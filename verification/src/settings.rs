//! The settings form: the configuration as editable text fields, and the
//! configuration built back from them when the user saves.

use vstd::prelude::*;

use crate::chain::Chain;
use crate::config::{
    chain_url, copy_opt, copy_str, copy_strings, csv_items, first_unknown_alias, insert_alias, numbers_spec,
    opt_str, parse_u64_list, result_view, set_of, set_of_items, trimmed_nonblank, ChainConfig, ChainMap,
    ChainMapView, Config, ConfigError, ConfigErrorView, ConfigView, config_wf,
};
use crate::keyed::{find_key, has_key, insert_key, keys_sorted, pairs_view, strs_sorted};
use crate::primitives::{address_hex, address_parse_spec, address_to_hex, dec_digits, parse_address, Address};
use crate::staking::{joined_ids, push_joined_ids};
use crate::text::{chars_of, parse_u64_spec, split_on, string_of, trim, trim_chars};
use crate::tokens::{registry, registry_spec, strings_view, tokens_view, TokenView};

verus! {

/// The editable fields of the settings screen. `token_whitelist` and
/// `safes` are sets, kept sorted.
#[derive(Debug)]
pub struct SettingsState {
    pub addresses: Vec<(String, String)>,
    pub rpc_mainnet: String,
    pub rpc_arbitrum: String,
    pub rpc_optimism: String,
    pub rpc_base: String,
    pub beacon_url: String,
    pub validator_indices: String,
    pub csm_operator_ids: String,
    pub token_whitelist: Vec<String>,
    pub safes: Vec<String>,
    pub db_path_override: String,
    pub error: Option<String>,
}

#[verifier::ext_equal]
pub struct SettingsView {
    pub addresses: Seq<(Seq<char>, Seq<char>)>,
    pub rpc_mainnet: Seq<char>,
    pub rpc_arbitrum: Seq<char>,
    pub rpc_optimism: Seq<char>,
    pub rpc_base: Seq<char>,
    pub beacon_url: Seq<char>,
    pub validator_indices: Seq<char>,
    pub csm_operator_ids: Seq<char>,
    pub token_whitelist: Seq<Seq<char>>,
    pub safes: Seq<Seq<char>>,
    pub db_path_override: Seq<char>,
    pub error: Option<Seq<char>>,
}

pub open spec fn text_pairs(v: Seq<(String, String)>) -> Seq<(Seq<char>, Seq<char>)> {
    v.map_values(|e: (String, String)| (e.0@, e.1@))
}

impl View for SettingsState {
    type V = SettingsView;

    open spec fn view(&self) -> SettingsView {
        SettingsView {
            addresses: text_pairs(self.addresses@),
            rpc_mainnet: self.rpc_mainnet@,
            rpc_arbitrum: self.rpc_arbitrum@,
            rpc_optimism: self.rpc_optimism@,
            rpc_base: self.rpc_base@,
            beacon_url: self.beacon_url@,
            validator_indices: self.validator_indices@,
            csm_operator_ids: self.csm_operator_ids@,
            token_whitelist: strings_view(self.token_whitelist@),
            safes: strings_view(self.safes@),
            db_path_override: self.db_path_override@,
            error: opt_str(self.error),
        }
    }
}

/// A blank form: one empty address row and nothing else.
pub open spec fn blank_settings() -> SettingsView {
    SettingsView {
        addresses: seq![(seq![], seq![])],
        rpc_mainnet: seq![],
        rpc_arbitrum: seq![],
        rpc_optimism: seq![],
        rpc_base: seq![],
        beacon_url: seq![],
        validator_indices: seq![],
        csm_operator_ids: seq![],
        token_whitelist: seq![],
        safes: seq![],
        db_path_override: seq![],
        error: None,
    }
}

fn empty_string() -> (r: String)
    ensures
        r@ == Seq::<char>::empty(),
{
    string_of(&Vec::new())
}

impl Default for SettingsState {
    fn default() -> (r: SettingsState)
        ensures
            r@ == blank_settings(),
    {
        let r = SettingsState {
            addresses: vec![(empty_string(), empty_string())],
            rpc_mainnet: empty_string(),
            rpc_arbitrum: empty_string(),
            rpc_optimism: empty_string(),
            rpc_base: empty_string(),
            beacon_url: empty_string(),
            validator_indices: empty_string(),
            csm_operator_ids: empty_string(),
            token_whitelist: Vec::new(),
            safes: Vec::new(),
            db_path_override: empty_string(),
            error: None,
        };
        assert(r@ =~~= blank_settings());
        r
    }
}

pub open spec fn text_or_empty(o: Option<Seq<char>>) -> Seq<char> {
    match o {
        Some(s) => s,
        None => seq![],
    }
}

/// The form filled from a configuration.
pub open spec fn settings_from_spec(c: ConfigView) -> SettingsView {
    SettingsView {
        addresses: if c.addresses.len() == 0 {
            seq![(seq![], seq![])]
        } else {
            c.addresses.map_values(|e: (Seq<char>, Address)| (e.0, address_hex(e.1)))
        },
        rpc_mainnet: text_or_empty(chain_url(c.chains, Chain::Mainnet)),
        rpc_arbitrum: text_or_empty(chain_url(c.chains, Chain::Arbitrum)),
        rpc_optimism: text_or_empty(chain_url(c.chains, Chain::Optimism)),
        rpc_base: text_or_empty(chain_url(c.chains, Chain::Base)),
        beacon_url: text_or_empty(c.beacon_url),
        validator_indices: joined_ids(c.validator_indices),
        csm_operator_ids: joined_ids(c.csm_operator_ids),
        token_whitelist: set_of(c.token_whitelist),
        safes: c.safes,
        db_path_override: text_or_empty(c.db_path_override),
        error: None,
    }
}

fn url_text(cc: Option<&ChainConfig>) -> (r: String)
    ensures
        r@ == text_or_empty(match cc {
            Some(x) => Some(x.rpc_url@),
            None => None,
        }),
{
    match cc {
        Some(x) => copy_str(&x.rpc_url),
        None => empty_string(),
    }
}

fn text_of(o: &Option<String>) -> (r: String)
    ensures
        r@ == text_or_empty(opt_str(*o)),
{
    match o {
        Some(s) => copy_str(s),
        None => empty_string(),
    }
}

/// The numbers joined by commas.
pub fn csv_from_u64s(items: &[u64]) -> (r: String)
    ensures
        r@ == joined_ids(items@),
{
    let mut v: Vec<char> = Vec::new();
    push_joined_ids(&mut v, items);
    assert(v@ =~= joined_ids(items@));
    string_of(&v)
}

/// The numbers of a comma-separated field, blank items skipped, or the
/// first item that is not a number.
pub fn parse_u64_csv(raw: &str, what: &str) -> (r: Result<Vec<u64>, ConfigError>)
    ensures
        result_view(r, |v: Vec<u64>| v@) == numbers_spec(csv_items(raw@), what@),
{
    parse_u64_list(raw, what)
}

impl SettingsState {
    pub fn from_config(cfg: &Config) -> (r: SettingsState)
        requires
            config_wf(cfg@),
        ensures
            r@ == settings_from_spec(cfg@),
    {
        let ghost av = pairs_view(cfg.addresses@);
        let mut addresses: Vec<(String, String)> = Vec::new();
        let mut i: usize = 0;
        while i < cfg.addresses.len()
            invariant
                i <= cfg.addresses@.len(),
                av == pairs_view(cfg.addresses@),
                text_pairs(addresses@) == av.take(i as int).map_values(
                    |e: (Seq<char>, Address)| (e.0, address_hex(e.1)),
                ),
            decreases cfg.addresses@.len() - i,
        {
            let e = &cfg.addresses[i];
            let ghost before = text_pairs(addresses@);
            let row = (copy_str(&e.0), address_to_hex(e.1));
            addresses.push(row);
            assert(text_pairs(addresses@) =~= before.push((e.0@, address_hex(e.1))));
            assert(av[i as int] == (e.0@, e.1));
            i = i + 1;
            assert(text_pairs(addresses@) =~= av.take(i as int).map_values(
                |e: (Seq<char>, Address)| (e.0, address_hex(e.1)),
            ));
        }
        assert(av.take(cfg.addresses@.len() as int) =~= av);
        if addresses.len() == 0 {
            addresses.push((empty_string(), empty_string()));
            assert(text_pairs(addresses@) =~= seq![(Seq::<char>::empty(), Seq::<char>::empty())]);
        }
        let r = SettingsState {
            addresses,
            rpc_mainnet: url_text(cfg.chains.get(Chain::Mainnet)),
            rpc_arbitrum: url_text(cfg.chains.get(Chain::Arbitrum)),
            rpc_optimism: url_text(cfg.chains.get(Chain::Optimism)),
            rpc_base: url_text(cfg.chains.get(Chain::Base)),
            beacon_url: text_of(&cfg.beacon_url),
            validator_indices: csv_from_u64s(cfg.validator_indices.as_slice()),
            csm_operator_ids: csv_from_u64s(cfg.csm_operator_ids.as_slice()),
            token_whitelist: set_of_items(&cfg.token_whitelist),
            safes: copy_strings(&cfg.safes),
            db_path_override: text_of(&cfg.db_path_override),
            error: None,
        };
        assert(r@ =~~= settings_from_spec(cfg@));
        r
    }
}

// ---------------------------------------------------------------------------
// Saving
// ---------------------------------------------------------------------------

/// One address row of the form added to `t`: rows blank in both fields are
/// skipped.
pub open spec fn form_row_step(t: Seq<(Seq<char>, Address)>, row: (Seq<char>, Seq<char>)) -> Result<
    Seq<(Seq<char>, Address)>,
    ConfigErrorView,
> {
    let alias = trim(row.0);
    let text = trim(row.1);
    if alias.len() == 0 && text.len() == 0 {
        Ok(t)
    } else if alias.len() == 0 {
        Err(ConfigErrorView::AddressWithoutAlias(text))
    } else if text.len() == 0 {
        Err(ConfigErrorView::AliasWithoutAddress(alias))
    } else {
        match address_parse_spec(text) {
            None => Err(ConfigErrorView::InvalidAddress { alias, address: text }),
            Some(a) => if has_key(t, alias) {
                Err(ConfigErrorView::DuplicateAlias(alias))
            } else {
                Ok(insert_key(t, alias, a))
            },
        }
    }
}

pub open spec fn form_rows_fold(rows: Seq<(Seq<char>, Seq<char>)>) -> Result<Seq<(Seq<char>, Address)>, ConfigErrorView>
    decreases rows.len(),
{
    if rows.len() == 0 {
        Ok(seq![])
    } else {
        match form_rows_fold(rows.drop_last()) {
            Err(e) => Err(e),
            Ok(t) => form_row_step(t, rows.last()),
        }
    }
}

proof fn lemma_form_fold_err(rows: Seq<(Seq<char>, Seq<char>)>, i: int, e: ConfigErrorView)
    requires
        0 <= i <= rows.len(),
        form_rows_fold(rows.take(i)) == Err::<Seq<(Seq<char>, Address)>, ConfigErrorView>(e),
    ensures
        form_rows_fold(rows) == Err::<Seq<(Seq<char>, Address)>, ConfigErrorView>(e),
    decreases rows.len() - i,
{
    if i < rows.len() {
        assert(rows.take(i + 1).drop_last() =~= rows.take(i));
        lemma_form_fold_err(rows, i + 1, e);
    } else {
        assert(rows.take(i) =~= rows);
    }
}

pub open spec fn form_chains(s: SettingsView) -> ChainMapView {
    ChainMapView {
        mainnet: trimmed_nonblank(Some(s.rpc_mainnet)),
        arbitrum: trimmed_nonblank(Some(s.rpc_arbitrum)),
        optimism: trimmed_nonblank(Some(s.rpc_optimism)),
        base: trimmed_nonblank(Some(s.rpc_base)),
    }
}

/// The configuration the form describes, or why it is refused.
pub open spec fn build_config_spec(s: SettingsView) -> Result<ConfigView, ConfigErrorView> {
    match form_rows_fold(s.addresses) {
        Err(e) => Err(e),
        Ok(addrs) => if addrs.len() == 0 {
            Err(ConfigErrorView::AddressRequired)
        } else {
            match numbers_spec(csv_items(s.validator_indices), "validator index"@) {
                Err(e) => Err(e),
                Ok(vi) => match numbers_spec(csv_items(s.csm_operator_ids), "csm operator id"@) {
                    Err(e) => Err(e),
                    Ok(ci) => match first_unknown_alias(s.safes, addrs) {
                        Some(a) => Err(ConfigErrorView::UnknownSafe(a)),
                        None => Ok(
                            ConfigView {
                                addresses: addrs,
                                chains: form_chains(s),
                                etherscan_api_key: None,
                                beacon_url: trimmed_nonblank(Some(s.beacon_url)),
                                validator_indices: vi,
                                csm_operator_ids: ci,
                                token_whitelist: s.token_whitelist,
                                safes: s.safes,
                                db_path_override: trimmed_nonblank(Some(s.db_path_override)),
                            },
                        ),
                    },
                },
            }
        },
    }
}

fn form_url(text: &String) -> (r: Option<ChainConfig>)
    ensures
        crate::config::opt_url(r) == trimmed_nonblank(Some(text@)),
{
    let t = trim_chars(&chars_of(text.as_str()));
    if t.len() > 0 {
        Some(ChainConfig { rpc_url: string_of(&t) })
    } else {
        None
    }
}

/// The configuration the form describes: address rows trimmed (blank rows
/// skipped), URLs and the database path trimmed (blank means unset), number
/// lists parsed, every safe a configured alias.
pub fn build_config(s: &SettingsState) -> (r: Result<Config, ConfigError>)
    requires
        strs_sorted(s@.safes),
    ensures
        result_view(r, |c: Config| c@) == build_config_spec(s@),
        r matches Ok(c) ==> config_wf(c@),
{
    let ghost rows = text_pairs(s.addresses@);
    let mut addresses: Vec<(String, Address)> = Vec::new();
    assert(rows.take(0) =~= Seq::<(Seq<char>, Seq<char>)>::empty());
    assert(pairs_view(addresses@) =~= Seq::<(Seq<char>, Address)>::empty());
    let mut i: usize = 0;
    while i < s.addresses.len()
        invariant
            i <= s.addresses@.len() == rows.len(),
            rows == text_pairs(s.addresses@),
            keys_sorted(pairs_view(addresses@)),
            form_rows_fold(rows.take(i as int)) == Ok::<Seq<(Seq<char>, Address)>, ConfigErrorView>(pairs_view(addresses@)),
        decreases s.addresses@.len() - i,
    {
        assert(rows.take(i + 1).drop_last() =~= rows.take(i as int));
        assert(rows.take(i + 1).last() == rows[i as int]);
        let alias = trim_chars(&chars_of(s.addresses[i].0.as_str()));
        let text = trim_chars(&chars_of(s.addresses[i].1.as_str()));
        if alias.len() == 0 && text.len() == 0 {
        } else if alias.len() == 0 {
            let e = ConfigError::AddressWithoutAlias(string_of(&text));
            proof {
                lemma_form_fold_err(rows, i + 1, e@);
            }
            return Err(e);
        } else if text.len() == 0 {
            let e = ConfigError::AliasWithoutAddress(string_of(&alias));
            proof {
                lemma_form_fold_err(rows, i + 1, e@);
            }
            return Err(e);
        } else {
            let text_s = string_of(&text);
            match parse_address(text_s.as_str()) {
                None => {
                    let e = ConfigError::InvalidAddress { alias: string_of(&alias), address: text_s };
                    proof {
                        lemma_form_fold_err(rows, i + 1, e@);
                    }
                    return Err(e);
                },
                Some(a) => {
                    if !insert_alias(&mut addresses, &alias, a) {
                        let e = ConfigError::DuplicateAlias(string_of(&alias));
                        proof {
                            lemma_form_fold_err(rows, i + 1, e@);
                        }
                        return Err(e);
                    }
                },
            }
        }
        i = i + 1;
    }
    assert(rows.take(s.addresses@.len() as int) =~= rows);
    if addresses.len() == 0 {
        return Err(ConfigError::AddressRequired);
    }
    let mut chains = ChainMap::new();
    chains.mainnet = form_url(&s.rpc_mainnet);
    chains.arbitrum = form_url(&s.rpc_arbitrum);
    chains.optimism = form_url(&s.rpc_optimism);
    chains.base = form_url(&s.rpc_base);
    let beacon_url = form_url(&s.beacon_url);
    let beacon_url = match beacon_url {
        Some(cc) => Some(cc.rpc_url),
        None => None,
    };
    proof {
        reveal_strlit("validator index");
        reveal_strlit("csm operator id");
    }
    let validator_indices = match parse_u64_csv(s.validator_indices.as_str(), "validator index") {
        Ok(v) => v,
        Err(e) => {
            return Err(e);
        },
    };
    let csm_operator_ids = match parse_u64_csv(s.csm_operator_ids.as_str(), "csm operator id") {
        Ok(v) => v,
        Err(e) => {
            return Err(e);
        },
    };
    let ghost av = pairs_view(addresses@);
    let ghost sv = strings_view(s.safes@);
    let mut k: usize = 0;
    assert(sv.skip(0) =~= sv);
    while k < s.safes.len()
        invariant
            k <= s.safes@.len() == sv.len(),
            sv == strings_view(s.safes@),
            av == pairs_view(addresses@),
            keys_sorted(av),
            av.len() > 0,
            form_rows_fold(rows) == Ok::<Seq<(Seq<char>, Address)>, ConfigErrorView>(av),
            rows == text_pairs(s.addresses@),
            numbers_spec(csv_items(s@.validator_indices), "validator index"@) == Ok::<Seq<u64>, ConfigErrorView>(validator_indices@),
            numbers_spec(csv_items(s@.csm_operator_ids), "csm operator id"@) == Ok::<Seq<u64>, ConfigErrorView>(csm_operator_ids@),
            first_unknown_alias(sv.skip(k as int), av) == first_unknown_alias(sv, av),
        decreases s.safes@.len() - k,
    {
        assert(sv.skip(k as int)[0] == sv[k as int]);
        let a = chars_of(s.safes[k].as_str());
        let (_, known) = find_key(&addresses, &a);
        if !known {
            return Err(ConfigError::UnknownSafe(string_of(&a)));
        }
        assert(sv.skip(k as int).drop_first() =~= sv.skip(k + 1));
        k = k + 1;
    }
    assert(sv.skip(k as int) =~= Seq::<Seq<char>>::empty());
    let db = form_url(&s.db_path_override);
    let db_path_override = match db {
        Some(cc) => Some(cc.rpc_url),
        None => None,
    };
    let cfg = Config {
        addresses,
        chains,
        etherscan_api_key: None,
        beacon_url,
        validator_indices,
        csm_operator_ids,
        token_whitelist: copy_strings(&s.token_whitelist),
        safes: copy_strings(&s.safes),
        db_path_override,
    };
    assert(cfg.chains@ =~~= form_chains(s@));
    assert(cfg@ =~~= build_config_spec(s@)->Ok_0);
    Ok(cfg)
}

// ---------------------------------------------------------------------------
// Whitelist choices
// ---------------------------------------------------------------------------

/// Each id once, at its first occurrence.
pub open spec fn first_occurrences(ids: Seq<Seq<char>>) -> Seq<Seq<char>>
    decreases ids.len(),
{
    if ids.len() == 0 {
        seq![]
    } else {
        let rest = first_occurrences(ids.drop_last());
        if rest.contains(ids.last()) {
            rest
        } else {
            rest.push(ids.last())
        }
    }
}

pub open spec fn registry_ids() -> Seq<Seq<char>> {
    registry_spec().map_values(|t: TokenView| t.whitelist_id)
}

pub open spec fn static_strs_view(v: Seq<&'static str>) -> Seq<Seq<char>> {
    v.map_values(|s: &'static str| s@)
}

/// The whitelist ids of the registry, each once, in registry order.
pub fn distinct_whitelist_ids() -> (r: Vec<&'static str>)
    ensures
        static_strs_view(r@) == first_occurrences(registry_ids()),
{
    let reg = registry();
    let ghost ids = registry_ids();
    let mut out: Vec<&'static str> = Vec::new();
    let mut i: usize = 0;
    assert(ids.take(0) =~= Seq::<Seq<char>>::empty());
    assert(static_strs_view(out@) =~= Seq::<Seq<char>>::empty());
    while i < reg.len()
        invariant
            i <= reg@.len() == ids.len(),
            tokens_view(reg@) == registry_spec(),
            ids == registry_ids(),
            static_strs_view(out@) == first_occurrences(ids.take(i as int)),
        decreases reg@.len() - i,
    {
        let id = reg[i].whitelist_id;
        assert(ids[i as int] == id@) by {
            assert(tokens_view(reg@)[i as int] == reg@[i as int]@);
        }
        assert(ids.take(i + 1).drop_last() =~= ids.take(i as int));
        assert(ids.take(i + 1).last() == id@);
        let ghost seen = static_strs_view(out@);
        let mut j: usize = 0;
        let mut found = false;
        while j < out.len()
            invariant
                j <= out@.len(),
                seen == static_strs_view(out@),
                found == exists|q: int| 0 <= q < j && seen[q] == id@,
            decreases out@.len() - j,
        {
            assert(seen[j as int] == out@[j as int]@);
            if crate::text::str_eq(out[j], id) {
                found = true;
                assert(seen[j as int] == id@);
            }
            j = j + 1;
            assert(found == exists|q: int| 0 <= q < j && seen[q] == id@) by {
                if found && !(exists|q: int| 0 <= q < j - 1 && seen[q] == id@) {
                    assert(seen[j - 1] == id@);
                }
            }
        }
        assert(found == seen.contains(id@));
        if !found {
            out.push(id);
            assert(static_strs_view(out@) =~= seen.push(id@));
        }
        i = i + 1;
    }
    assert(ids.take(reg@.len() as int) =~= ids);
    out
}


/// The app's two screens.
#[derive(Clone, Copy, Debug, PartialEq, Eq, Structural)]
pub enum Screen {
    Settings,
    Holdings,
}

/// The screen shown at start: holdings once a configuration has loaded,
/// else the settings form.
pub fn startup_screen(config_loaded: bool) -> (r: Screen)
    ensures
        r == if config_loaded { Screen::Holdings } else { Screen::Settings },
{
    if config_loaded {
        Screen::Holdings
    } else {
        Screen::Settings
    }
}


// ---------------------------------------------------------------------------
// Reading back what the form shows
// ---------------------------------------------------------------------------

proof fn lemma_split_no_sep(s: Seq<char>, t: Seq<char>)
    requires
        forall|i: int| 0 <= i < t.len() ==> t[i] != ',',
        split_on(s, ',').len() >= 1,
    ensures
        split_on(s + t, ',') == split_on(s, ',').update(
            split_on(s, ',').len() - 1,
            split_on(s, ',').last() + t,
        ),
    decreases t.len(),
{
    if t.len() == 0 {
        assert(s + t =~= s);
        assert(split_on(s, ',').last() + t =~= split_on(s, ',').last());
        assert(split_on(s, ',').update(split_on(s, ',').len() - 1, split_on(s, ',').last()) =~= split_on(s, ','));
    } else {
        let t0 = t.drop_last();
        assert forall|i: int| 0 <= i < t0.len() implies t0[i] != ',' by {
            assert(t0[i] == t[i]);
        }
        lemma_split_no_sep(s, t0);
        assert((s + t).drop_last() =~= s + t0);
        assert((s + t).last() == t.last());
        assert(t.last() != ',');
        let sp = split_on(s, ',');
        assert((sp.last() + t0).push(t.last()) =~= sp.last() + t);
        crate::text::lemma_split_nonempty(s + t0, ',');
        assert(split_on(s + t, ',') =~= sp.update(sp.len() - 1, sp.last() + t));
    }
}

proof fn lemma_digits_no_comma(n: nat)
    ensures
        forall|i: int| 0 <= i < dec_digits(n).len() ==> #[trigger] dec_digits(n)[i] != ',' && !crate::text::is_ws(dec_digits(n)[i]),
{
    crate::text::lemma_dec_digits_roundtrip(n);
    assert forall|i: int| 0 <= i < dec_digits(n).len() implies #[trigger] dec_digits(n)[i] != ',' && !crate::text::is_ws(dec_digits(n)[i]) by {
        assert(crate::text::is_digit(dec_digits(n)[i]));
    }
}

pub open spec fn digit_pieces(v: Seq<u64>) -> Seq<Seq<char>> {
    v.map_values(|n: u64| dec_digits(n as nat))
}

proof fn lemma_split_joined(v: Seq<u64>)
    requires
        v.len() > 0,
    ensures
        split_on(joined_ids(v), ',') == digit_pieces(v),
    decreases v.len(),
{
    let d = dec_digits(v.last() as nat);
    lemma_digits_no_comma(v.last() as nat);
    if v.len() == 1 {
        assert(split_on(Seq::<char>::empty(), ',') =~= seq![Seq::<char>::empty()]);
        lemma_split_no_sep(Seq::<char>::empty(), d);
        assert(Seq::<char>::empty() + d =~= d);
        assert(joined_ids(v) == d);
        assert(digit_pieces(v) =~= seq![d]);
        assert(seq![Seq::<char>::empty()].update(0, Seq::<char>::empty() + d) =~= seq![d]);
    } else {
        let w = v.drop_last();
        lemma_split_joined(w);
        let a = joined_ids(w);
        let sa = a.push(',');
        crate::text::lemma_split_nonempty(a, ',');
        assert(sa.drop_last() =~= a);
        assert(split_on(sa, ',') == split_on(a, ',').push(seq![]));
        assert(a + seq![','] + d =~= sa + d);
        lemma_split_no_sep(sa, d);
        let sp = split_on(sa, ',');
        assert(sp.last() + d =~= d);
        assert(sp.update(sp.len() - 1, d) =~= digit_pieces(w).push(d));
        assert(digit_pieces(v) =~= digit_pieces(w).push(d));
    }
}

proof fn lemma_numbers_of_digits(v: Seq<u64>, what: Seq<char>)
    ensures
        numbers_spec(digit_pieces(v), what) == Ok::<Seq<u64>, ConfigErrorView>(v),
    decreases v.len(),
{
    if v.len() > 0 {
        let n = v[0];
        crate::text::lemma_dec_digits_roundtrip(n as nat);
        let d = dec_digits(n as nat);
        assert(crate::text::strip_plus(d) == d);
        assert(parse_u64_spec(d) == Some(n));
        assert(digit_pieces(v)[0] == d);
        assert(digit_pieces(v).len() > 0);
        assert(digit_pieces(v).drop_first() =~= digit_pieces(v.drop_first()));
        lemma_numbers_of_digits(v.drop_first(), what);
        assert(numbers_spec(digit_pieces(v).drop_first(), what) == Ok::<Seq<u64>, ConfigErrorView>(v.drop_first()));
        assert(numbers_spec(digit_pieces(v), what) == Ok::<Seq<u64>, ConfigErrorView>(seq![n] + v.drop_first()));
        assert(seq![n] + v.drop_first() =~= v);
    } else {
        assert(digit_pieces(v) =~= Seq::<Seq<char>>::empty());
        assert(v =~= Seq::<u64>::empty());
    }
}

/// Numbers written as the form writes them read back as the same numbers.
pub proof fn law_csv_roundtrip(v: Seq<u64>, what: Seq<char>)
    ensures
        numbers_spec(csv_items(joined_ids(v)), what) == Ok::<Seq<u64>, ConfigErrorView>(v),
{
    if v.len() == 0 {
        assert(split_on(joined_ids(v), ',') =~= seq![Seq::<char>::empty()]);
        assert(trim(Seq::<char>::empty()) =~= Seq::<char>::empty());
        reveal_with_fuel(Seq::<_>::filter, 2);
        let m = seq![Seq::<char>::empty()].map_values(|p: Seq<char>| trim(p));
        assert(m =~= seq![Seq::<char>::empty()]);
        assert(m.drop_last() =~= Seq::<Seq<char>>::empty());
        assert(csv_items(joined_ids(v)) =~= Seq::<Seq<char>>::empty());
        assert(v =~= Seq::<u64>::empty());
    } else {
        lemma_split_joined(v);
        let p = digit_pieces(v);
        let m = p.map_values(|p: Seq<char>| trim(p));
        assert forall|i: int| 0 <= i < p.len() implies #[trigger] trim(p[i]) == p[i] && p[i].len() > 0 by {
            lemma_digits_no_comma(v[i] as nat);
            crate::text::lemma_dec_digits_roundtrip(v[i] as nat);
            lemma_trim_id(p[i]);
        }
        assert(m =~= p);
        lemma_filter_keeps_all(p);
        lemma_numbers_of_digits(v, what);
    }
}

proof fn lemma_trim_id(s: Seq<char>)
    requires
        forall|i: int| 0 <= i < s.len() ==> !crate::text::is_ws(#[trigger] s[i]),
    ensures
        trim(s) == s,
{
    if s.len() > 0 {
        assert(!crate::text::is_ws(s[0]));
        assert(crate::text::trim_start(s) == s);
        assert(!crate::text::is_ws(s[s.len() - 1]));
    }
}

proof fn lemma_filter_keeps_all(p: Seq<Seq<char>>)
    requires
        forall|i: int| 0 <= i < p.len() ==> (#[trigger] p[i]).len() > 0,
    ensures
        p.filter(|p: Seq<char>| p.len() > 0) == p,
    decreases p.len(),
{
    reveal_with_fuel(Seq::<_>::filter, 1);
    if p.len() > 0 {
        let d = p.drop_last();
        assert forall|i: int| 0 <= i < d.len() implies (#[trigger] d[i]).len() > 0 by {
            assert(d[i] == p[i]);
        }
        lemma_filter_keeps_all(d);
        assert(p.last().len() > 0);
        assert(d.push(p.last()) =~= p);
    } else {
        assert(p.filter(|p: Seq<char>| p.len() > 0) =~= p);
    }
}


proof fn lemma_form_rows_back(a: Seq<(Seq<char>, Address)>, k: int)
    requires
        0 <= k <= a.len(),
        keys_sorted(a),
        forall|i: int| 0 <= i < a.len() ==> trim(#[trigger] a[i].0) == a[i].0 && a[i].0.len() > 0,
    ensures
        form_rows_fold(a.map_values(|e: (Seq<char>, Address)| (e.0, address_hex(e.1))).take(k))
            == Ok::<Seq<(Seq<char>, Address)>, ConfigErrorView>(a.take(k)),
    decreases k,
{
    let e = a.map_values(|e: (Seq<char>, Address)| (e.0, address_hex(e.1)));
    if k == 0 {
        assert(e.take(0) =~= Seq::<(Seq<char>, Seq<char>)>::empty());
        assert(a.take(0) =~= Seq::<(Seq<char>, Address)>::empty());
    } else {
        lemma_form_rows_back(a, k - 1);
        assert(e.take(k).drop_last() =~= e.take(k - 1));
        let t = a.take(k - 1);
        let (alias, addr) = a[k - 1];
        assert(e.take(k).last() == (alias, address_hex(addr)));
        crate::config::lemma_trim_hex(addr);
        crate::primitives::law_address_hex_parses(addr);
        assert(address_hex(addr).len() > 0);
        assert(keys_sorted(t)) by {
            assert forall|i: int, j: int| 0 <= i < j < t.len() implies crate::text::seq_lt(#[trigger] t[i].0, #[trigger] t[j].0) by {
                assert(t[i] == a[i] && t[j] == a[j]);
            }
        }
        crate::keyed::lemma_lower_bound(t, alias);
        assert forall|i: int| 0 <= i < t.len() implies crate::text::seq_lt(#[trigger] t[i].0, alias) by {
            assert(t[i] == a[i]);
        }
        assert(!has_key(t, alias)) by {
            if has_key(t, alias) {
                let w = choose|i: int| 0 <= i < t.len() && #[trigger] t[i].0 == alias;
                assert(crate::text::seq_lt(t[w].0, alias));
                crate::text::lemma_seq_lt_irrefl(alias);
            }
        }
        let p = crate::keyed::key_lower_bound(t, alias);
        if p < t.len() {
            assert(crate::text::seq_lt(t[p].0, alias));
        }
        assert(p == t.len());
        assert(insert_key(t, alias, addr) =~= a.take(k));
    }
}

proof fn lemma_safes_known(s: Seq<Seq<char>>, a: Seq<(Seq<char>, Address)>)
    requires
        forall|i: int| 0 <= i < s.len() ==> has_key(a, #[trigger] s[i]),
    ensures
        first_unknown_alias(s, a) is None,
    decreases s.len(),
{
    if s.len() > 0 {
        let d = s.drop_first();
        assert forall|i: int| 0 <= i < d.len() implies has_key(a, #[trigger] d[i]) by {
            assert(d[i] == s[i + 1]);
        }
        assert(has_key(a, s[0]));
        lemma_safes_known(d, a);
    }
}

proof fn lemma_set_of_sorted(w: Seq<Seq<char>>)
    requires
        strs_sorted(w),
    ensures
        set_of(w) == w,
    decreases w.len(),
{
    if w.len() == 0 {
        assert(w =~= Seq::<Seq<char>>::empty());
    } else {
        let d = w.drop_last();
        let x = w.last();
        assert(strs_sorted(d)) by {
            assert forall|i: int, j: int| 0 <= i < j < d.len() implies crate::text::seq_lt(#[trigger] d[i], #[trigger] d[j]) by {
                assert(d[i] == w[i] && d[j] == w[j]);
            }
        }
        lemma_set_of_sorted(d);
        assert(!d.contains(x)) by {
            if d.contains(x) {
                let q = choose|i: int| 0 <= i < d.len() && d[i] == x;
                assert(crate::text::seq_lt(w[q], w[w.len() - 1]));
                crate::text::lemma_seq_lt_irrefl(x);
            }
        }
        crate::keyed::lemma_as_keyed::<()>(d);
        let kd = crate::keyed::as_keyed(d);
        crate::keyed::lemma_lower_bound(kd, x);
        let p = crate::keyed::key_lower_bound(kd, x);
        if p < kd.len() {
            assert(kd[p].0 == d[p]);
            assert(crate::text::seq_lt(w[p], w[w.len() - 1]));
        }
        assert(p == d.len());
        assert(crate::keyed::set_insert(d, x) =~= w);
    }
}

proof fn lemma_text_back(o: Option<Seq<char>>)
    requires
        o matches Some(u) ==> trim(u) == u && u.len() > 0,
    ensures
        trimmed_nonblank(Some(text_or_empty(o))) == o,
{
    if o is None {
        assert(trim(Seq::<char>::empty()) =~= Seq::<char>::empty());
    }
}

/// Filling the form from a configuration and saving it gives the same
/// configuration back (the explorer API key aside, which the form does not
/// hold), provided the token whitelist is already a set, as the form holds
/// it.
pub proof fn law_form_roundtrip(c: ConfigView)
    requires
        crate::config::file_faithful(c),
        strs_sorted(c.token_whitelist),
    ensures
        build_config_spec(settings_from_spec(c)) == Ok::<ConfigView, ConfigErrorView>(ConfigView { etherscan_api_key: None, ..c }),
{
    let s = settings_from_spec(c);
    lemma_form_rows_back(c.addresses, c.addresses.len() as int);
    let e = c.addresses.map_values(|e: (Seq<char>, Address)| (e.0, address_hex(e.1)));
    assert(e.take(e.len() as int) =~= e);
    assert(c.addresses.take(c.addresses.len() as int) =~= c.addresses);
    assert(s.addresses == e);
    law_csv_roundtrip(c.validator_indices, "validator index"@);
    law_csv_roundtrip(c.csm_operator_ids, "csm operator id"@);
    assert forall|i: int| 0 <= i < c.safes.len() implies has_key(c.addresses, #[trigger] c.safes[i]) by {}
    lemma_safes_known(c.safes, c.addresses);
    lemma_set_of_sorted(c.token_whitelist);
    assert(chain_url(c.chains, Chain::Mainnet) == c.chains.mainnet);
    assert(chain_url(c.chains, Chain::Arbitrum) == c.chains.arbitrum);
    assert(chain_url(c.chains, Chain::Optimism) == c.chains.optimism);
    assert(chain_url(c.chains, Chain::Base) == c.chains.base);
    lemma_text_back(c.chains.mainnet);
    lemma_text_back(c.chains.arbitrum);
    lemma_text_back(c.chains.optimism);
    lemma_text_back(c.chains.base);
    lemma_text_back(c.beacon_url);
    lemma_text_back(c.db_path_override);
    assert(form_chains(s) =~~= c.chains);
    let r = build_config_spec(s);
    assert(r->Ok_0 =~~= ConfigView { etherscan_api_key: None, ..c });
}

} // verus!
