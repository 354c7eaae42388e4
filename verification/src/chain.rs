//! The EVM chains the tracker knows: their ids, names and RPC settings keys.

use vstd::prelude::*;

use crate::primitives::dec_digits;
use crate::text::{
    chars_equal, ascii_lower, ascii_lower_chars, chars_of, parse_u64, parse_u64_spec, push_str, string_of,
};

verus! {

#[derive(Clone, Copy, Debug, PartialEq, Eq, Structural, Hash, PartialOrd, Ord)]
pub enum Chain {
    Mainnet,
    Arbitrum,
    Optimism,
    Base,
}

/// Every chain, in the order the tracker lists them.
pub open spec fn all_chains_spec() -> Seq<Chain> {
    seq![Chain::Mainnet, Chain::Arbitrum, Chain::Optimism, Chain::Base]
}

pub open spec fn chain_id_spec(c: Chain) -> u64 {
    match c {
        Chain::Mainnet => 1,
        Chain::Arbitrum => 42161,
        Chain::Optimism => 10,
        Chain::Base => 8453,
    }
}

pub open spec fn chain_name_spec(c: Chain) -> Seq<char> {
    match c {
        Chain::Mainnet => seq!['m', 'a', 'i', 'n', 'n', 'e', 't'],
        Chain::Arbitrum => seq!['a', 'r', 'b', 'i', 't', 'r', 'u', 'm'],
        Chain::Optimism => seq!['o', 'p', 't', 'i', 'm', 'i', 's', 'm'],
        Chain::Base => seq!['b', 'a', 's', 'e'],
    }
}

pub open spec fn chain_from_id_spec(id: u64) -> Option<Chain> {
    if id == 1 {
        Some(Chain::Mainnet)
    } else if id == 42161 {
        Some(Chain::Arbitrum)
    } else if id == 10 {
        Some(Chain::Optimism)
    } else if id == 8453 {
        Some(Chain::Base)
    } else {
        None
    }
}

/// The chain whose lowercase name is `s`, if any.
pub open spec fn chain_by_name_spec(s: Seq<char>) -> Option<Chain> {
    if s == chain_name_spec(Chain::Mainnet) {
        Some(Chain::Mainnet)
    } else if s == chain_name_spec(Chain::Arbitrum) {
        Some(Chain::Arbitrum)
    } else if s == chain_name_spec(Chain::Optimism) {
        Some(Chain::Optimism)
    } else if s == chain_name_spec(Chain::Base) {
        Some(Chain::Base)
    } else {
        None
    }
}

/// What `Chain: FromStr` accepts: a chain name in any ASCII case, or a
/// decimal chain id (as `u64` parses it) of a known chain.
pub open spec fn parse_chain_spec(s: Seq<char>) -> Option<Chain> {
    let lower = ascii_lower(s);
    match chain_by_name_spec(lower) {
        Some(c) => Some(c),
        None => match parse_u64_spec(lower) {
            Some(id) => chain_from_id_spec(id),
            None => None,
        },
    }
}

/// `"unknown chain: "` followed by the input.
pub open spec fn unknown_chain_message(s: Seq<char>) -> Seq<char> {
    seq!['u', 'n', 'k', 'n', 'o', 'w', 'n', ' ', 'c', 'h', 'a', 'i', 'n', ':', ' '] + s
}

impl Chain {
    /// Every chain, in order.
    pub fn all() -> (v: Vec<Chain>)
        ensures
            v@ == all_chains_spec(),
    {
        let v = vec![Chain::Mainnet, Chain::Arbitrum, Chain::Optimism, Chain::Base];
        assert(v@ =~= all_chains_spec());
        v
    }

    pub fn id(self) -> (r: u64)
        ensures
            r == chain_id_spec(self),
    {
        match self {
            Chain::Mainnet => 1,
            Chain::Arbitrum => 42161,
            Chain::Optimism => 10,
            Chain::Base => 8453,
        }
    }

    pub fn name(self) -> (r: &'static str)
        ensures
            r@ == chain_name_spec(self),
    {
        match self {
            Chain::Mainnet => {
                proof {
                    reveal_strlit("mainnet");
                }
                "mainnet"
            },
            Chain::Arbitrum => {
                proof {
                    reveal_strlit("arbitrum");
                }
                "arbitrum"
            },
            Chain::Optimism => {
                proof {
                    reveal_strlit("optimism");
                }
                "optimism"
            },
            Chain::Base => {
                proof {
                    reveal_strlit("base");
                }
                "base"
            },
        }
    }

    /// The chain's name, as an owned string.
    pub fn to_string(self) -> (r: String)
        ensures
            r@ == chain_name_spec(self),
    {
        let v = chars_of(self.name());
        string_of(&v)
    }

    /// The environment variable that holds this chain's RPC URL.
    pub fn rpc_env_key(self) -> (r: &'static str)
        ensures
            r@ == rpc_env_key_spec(self),
    {
        match self {
            Chain::Mainnet => {
                proof {
                    reveal_strlit("LPORTFOLIO_RPC_MAINNET");
                }
                "LPORTFOLIO_RPC_MAINNET"
            },
            Chain::Arbitrum => {
                proof {
                    reveal_strlit("LPORTFOLIO_RPC_ARBITRUM");
                }
                "LPORTFOLIO_RPC_ARBITRUM"
            },
            Chain::Optimism => {
                proof {
                    reveal_strlit("LPORTFOLIO_RPC_OPTIMISM");
                }
                "LPORTFOLIO_RPC_OPTIMISM"
            },
            Chain::Base => {
                proof {
                    reveal_strlit("LPORTFOLIO_RPC_BASE");
                }
                "LPORTFOLIO_RPC_BASE"
            },
        }
    }

    /// The known chain with this id.
    pub fn from_id(id: u64) -> (r: Option<Chain>)
        ensures
            r == chain_from_id_spec(id),
    {
        let all = Chain::all();
        let mut i: usize = 0;
        while i < all.len()
            invariant
                all@ == all_chains_spec(),
                i <= all@.len(),
                forall|k: int| 0 <= k < i ==> chain_id_spec(#[trigger] all@[k]) != id,
            decreases all@.len() - i,
        {
            if all[i].id() == id {
                return Some(all[i]);
            }
            i = i + 1;
        }
        assert(chain_id_spec(all@[0]) != id);
        assert(chain_id_spec(all@[1]) != id);
        assert(chain_id_spec(all@[2]) != id);
        assert(chain_id_spec(all@[3]) != id);
        None
    }
}

/// `"LPORTFOLIO_RPC_"` followed by the name in upper case.
pub open spec fn rpc_env_key_spec(c: Chain) -> Seq<char> {
    seq!['L', 'P', 'O', 'R', 'T', 'F', 'O', 'L', 'I', 'O', '_', 'R', 'P', 'C', '_'] + match c {
        Chain::Mainnet => seq!['M', 'A', 'I', 'N', 'N', 'E', 'T'],
        Chain::Arbitrum => seq!['A', 'R', 'B', 'I', 'T', 'R', 'U', 'M'],
        Chain::Optimism => seq!['O', 'P', 'T', 'I', 'M', 'I', 'S', 'M'],
        Chain::Base => seq!['B', 'A', 'S', 'E'],
    }
}

/// Parses a chain name (any ASCII case) or a decimal chain id; on failure
/// the error reads `unknown chain: <input>`.
pub fn parse_chain(s: &str) -> (r: Result<Chain, String>)
    ensures
        parse_chain_spec(s@) matches Some(c) ==> r == Ok::<Chain, String>(c),
        parse_chain_spec(s@) is None ==> (r matches Err(e) && e@ == unknown_chain_message(s@)),
{
    let raw = chars_of(s);
    let lower = ascii_lower_chars(&raw);
    let all = Chain::all();
    let mut i: usize = 0;
    while i < all.len()
        invariant
            all@ == all_chains_spec(),
            i <= all@.len(),
            lower@ == ascii_lower(s@),
            forall|k: int| 0 <= k < i ==> chain_name_spec(#[trigger] all@[k]) != lower@,
        decreases all@.len() - i,
    {
        let name = chars_of(all[i].name());
        if chars_equal(&name, &lower) {
            return Ok(all[i]);
        }
        i = i + 1;
    }
    assert(chain_name_spec(all@[0]) != lower@);
    assert(chain_name_spec(all@[1]) != lower@);
    assert(chain_name_spec(all@[2]) != lower@);
    assert(chain_name_spec(all@[3]) != lower@);
    if let Some(id) = parse_u64(&lower) {
        if let Some(c) = Chain::from_id(id) {
            return Ok(c);
        }
    }
    let prefix = "unknown chain: ";
    proof {
        reveal_strlit("unknown chain: ");
    }
    let mut msg = string_of(&chars_of(prefix));
    push_str(&mut msg, s);
    Err(msg)
}

impl std::str::FromStr for Chain {
    type Err = String;

    fn from_str(s: &str) -> (r: Result<Chain, String>)
        ensures
            parse_chain_spec(s@) matches Some(c) ==> r == Ok::<Chain, String>(c),
            parse_chain_spec(s@) is None ==> (r matches Err(e) && e@ == unknown_chain_message(s@)),
    {
        parse_chain(s)
    }
}

/// Each chain's id leads back to the chain.
pub proof fn law_from_id_inverts_id(c: Chain)
    ensures
        chain_from_id_spec(chain_id_spec(c)) == Some(c),
{
}

/// Chain names are pairwise distinct and already lowercase, so parsing a
/// chain's name, or its name in upper case, gives the chain back.
pub proof fn law_names_distinct_and_lowercase(a: Chain, b: Chain)
    ensures
        a != b ==> chain_name_spec(a) != chain_name_spec(b),
        ascii_lower(chain_name_spec(a)) == chain_name_spec(a),
        chain_by_name_spec(chain_name_spec(a)) == Some(a),
        parse_chain_spec(chain_name_spec(a)) == Some(a),
{
    if a != b {
        assert(chain_name_spec(a).len() != chain_name_spec(b).len() || chain_name_spec(a)[0]
            != chain_name_spec(b)[0]);
    }
    assert(ascii_lower(chain_name_spec(a)) =~= chain_name_spec(a));
    assert(chain_by_name_spec(chain_name_spec(a)) == Some(a)) by {
        let n = chain_name_spec(a);
        if a != Chain::Mainnet {
            assert(n != chain_name_spec(Chain::Mainnet)) by {
                assert(n.len() != 7 || n[0] != 'm');
            }
        }
        if a != Chain::Arbitrum {
            assert(n != chain_name_spec(Chain::Arbitrum)) by {
                assert(n.len() != 8 || n[0] != 'a');
            }
        }
        if a != Chain::Optimism {
            assert(n != chain_name_spec(Chain::Optimism)) by {
                assert(n.len() != 8 || n[0] != 'o');
            }
        }
    }
}

/// Parsing the decimal id of a chain gives the chain.
pub proof fn law_parse_decimal_id(c: Chain)
    ensures
        parse_chain_spec(dec_digits(chain_id_spec(c) as nat)) == Some(c),
{
    let n = chain_id_spec(c) as nat;
    let d = dec_digits(n);
    crate::text::lemma_dec_digits_roundtrip(n);
    assert(ascii_lower(d) =~= d) by {
        assert forall|i: int| 0 <= i < d.len() implies ascii_lower(d)[i] == d[i] by {
            assert(crate::text::is_digit(d[i]));
        }
    }
    assert(crate::text::is_digit(d[0]));
    assert(chain_by_name_spec(d) is None) by {
        assert(d != chain_name_spec(Chain::Mainnet)) by { assert(chain_name_spec(Chain::Mainnet)[0] == 'm'); }
        assert(d != chain_name_spec(Chain::Arbitrum)) by { assert(chain_name_spec(Chain::Arbitrum)[0] == 'a'); }
        assert(d != chain_name_spec(Chain::Optimism)) by { assert(chain_name_spec(Chain::Optimism)[0] == 'o'); }
        assert(d != chain_name_spec(Chain::Base)) by { assert(chain_name_spec(Chain::Base)[0] == 'b'); }
    }
    assert(crate::text::strip_plus(d) == d);
}

} // verus!
