//! Chain RPC helpers: the ETH balance text and the check that an RPC
//! endpoint serves the chain it was configured for.

use vstd::prelude::*;

use crate::chain::{chain_id_spec, chain_name_spec, Chain};
use crate::primitives::{dec_digits, parse_u256, u256_parse_spec, U256};
use crate::render::{decimal_chars, decimal_text};
use crate::text::{chars_of, push_decimal, push_text, string_of};

verus! {

/// A JSON-RPC quantity: `0x` followed by hex digits, read as a number
/// (`None` without the prefix, with a non-digit, or from 2^256 on).
pub open spec fn quantity_spec(s: Seq<char>) -> Option<U256> {
    if s.len() >= 2 && s[0] == '0' && s[1] == 'x' {
        u256_parse_spec(s)
    } else {
        None
    }
}

/// Reads a JSON-RPC quantity (see [`quantity_spec`]).
pub fn parse_quantity(text: &str) -> (r: Option<U256>)
    ensures
        r == quantity_spec(text@),
{
    let cs = chars_of(text);
    if cs.len() >= 2 && cs[0] == '0' && cs[1] == 'x' {
        parse_u256(text)
    } else {
        None
    }
}

/// A wei balance as ETH with up to six decimals, followed by ` ETH`.
pub open spec fn eth_text(wei: U256) -> Seq<char> {
    decimal_text(wei@, 18, 6) + seq![' ', 'E', 'T', 'H']
}

pub fn format_eth(wei: U256) -> (r: String)
    ensures
        r@ == eth_text(wei),
{
    let mut v = decimal_chars(wei, 18, 6);
    proof {
        reveal_strlit(" ETH");
    }
    push_text(&mut v, " ETH");
    assert(v@ =~= eth_text(wei));
    string_of(&v)
}

/// The error when an RPC endpoint reports another chain id.
pub open spec fn chain_mismatch_message(c: Chain, observed: u64) -> Seq<char> {
    seq!['R', 'P', 'C', ' ', 'f', 'o', 'r', ' '] + chain_name_spec(c) + seq![
        ' ',
        'r',
        'e',
        't',
        'u',
        'r',
        'n',
        'e',
        'd',
        ' ',
        'c',
        'h',
        'a',
        'i',
        'n',
        ' ',
        'i',
        'd',
        ' ',
    ] + dec_digits(observed as nat) + seq![',', ' ', 'e', 'x', 'p', 'e', 'c', 't', 'e', 'd', ' ']
        + dec_digits(chain_id_spec(c) as nat)
}

/// Accepts the chain id an endpoint reported for `chain` only if it is the
/// chain's own id.
pub fn check_chain_id(chain: Chain, observed: u64) -> (r: Result<(), String>)
    ensures
        observed == chain_id_spec(chain) ==> r is Ok,
        observed != chain_id_spec(chain) ==> (r matches Err(e) && e@ == chain_mismatch_message(
            chain,
            observed,
        )),
{
    if observed == chain.id() {
        return Ok(());
    }
    let mut v: Vec<char> = Vec::new();
    proof {
        reveal_strlit("RPC for ");
        reveal_strlit(" returned chain id ");
        reveal_strlit(", expected ");
    }
    push_text(&mut v, "RPC for ");
    push_text(&mut v, chain.name());
    push_text(&mut v, " returned chain id ");
    push_decimal(&mut v, observed);
    push_text(&mut v, ", expected ");
    push_decimal(&mut v, chain.id());
    assert(v@ =~= chain_mismatch_message(chain, observed));
    Err(string_of(&v))
}

} // verus!
