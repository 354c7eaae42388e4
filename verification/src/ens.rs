//! ENS reverse resolution: the name queried, what each call outcome means
//! for the retry loop, and the tally of a batch.

use vstd::prelude::*;

use crate::primitives::{address_to_hex, hex_lower, Address};
use crate::text::{chars_of, contains_chars, contains_seq};

verus! {

/// The L2-aware Universal Resolver on mainnet.
#[verifier::allow_in_spec]
pub fn universal_resolver() -> Address
    returns
        (Address { hi: 0xce01f8ee, mid: 0xe7e479c928f8919a, lo: 0xbd53e553a36cef67 }),
{
    Address { hi: 0xce01f8ee, mid: 0xe7e479c928f8919a, lo: 0xbd53e553a36cef67 }
}

/// Retries after the first failed call.
pub const MAX_RETRIES: u32 = 2;

/// Backoff before the first retry is twice this; it doubles per retry.
pub const INITIAL_BACKOFF_MS: u64 = 400;

pub open spec fn ascii_bytes(s: Seq<char>) -> Seq<u8> {
    s.map_values(|c: char| (c as u32) as u8)
}

/// The DNS wire form of `<address hex>.addr.reverse`: each label prefixed
/// by its length, then a zero byte.
pub open spec fn reverse_name_spec(a: Address) -> Seq<u8> {
    seq![40u8] + ascii_bytes(hex_lower(a@, 40)) + seq![4u8] + ascii_bytes("addr"@) + seq![7u8]
        + ascii_bytes("reverse"@) + seq![0u8]
}

fn push_ascii(out: &mut Vec<u8>, s: &Vec<char>)
    requires
        forall|i: int| 0 <= i < s@.len() ==> (#[trigger] s@[i] as u32) < 128,
    ensures
        final(out)@ == old(out)@ + ascii_bytes(s@),
{
    let ghost start = out@;
    let mut i: usize = 0;
    while i < s.len()
        invariant
            i <= s@.len(),
            forall|k: int| 0 <= k < s@.len() ==> (#[trigger] s@[k] as u32) < 128,
            out@ == start + ascii_bytes(s@.take(i as int)),
        decreases s@.len() - i,
    {
        let c = s[i];
        let b = c as u32;
        assert(s@[i as int] == c);
        assert((s@[i as int] as u32) < 128);
        assert(b < 128);
        out.push(b as u8);
        i = i + 1;
        assert(out@ =~= start + ascii_bytes(s@.take(i as int)));
    }
    assert(s@.take(s@.len() as int) =~= s@);
}

proof fn lemma_hex_ascii(v: nat, len: nat)
    ensures
        forall|i: int| 0 <= i < hex_lower(v, len).len() ==> (#[trigger] hex_lower(v, len)[i] as u32) < 128,
    decreases len,
{
    crate::primitives::lemma_hex_len(v, len);
    if len > 0 {
        lemma_hex_ascii(v / 16, (len - 1) as nat);
        crate::primitives::lemma_hex_len(v / 16, (len - 1) as nat);
        let h = hex_lower(v, len);
        let p = hex_lower(v / 16, (len - 1) as nat);
        assert forall|i: int| 0 <= i < h.len() implies (#[trigger] h[i] as u32) < 128 by {
            if i < p.len() {
                assert(h[i] == p[i]);
            }
        }
    }
}

/// The reverse-record name of an address, in DNS wire form (55 bytes).
pub fn encode_reverse_name(addr: Address) -> (r: Vec<u8>)
    ensures
        r@ == reverse_name_spec(addr),
        r@.len() == 55,
{
    let full = chars_of(address_to_hex(addr).as_str());
    proof {
        crate::primitives::lemma_hex_len(addr@, 40);
        lemma_hex_ascii(addr@, 40);
    }
    let mut hex: Vec<char> = Vec::new();
    let mut i: usize = 2;
    while i < full.len()
        invariant
            2 <= i <= full@.len() == 42,
            full@ == seq!['0', 'x'] + hex_lower(addr@, 40),
            hex@ == full@.subrange(2, i as int),
        decreases full@.len() - i,
    {
        hex.push(full[i]);
        i = i + 1;
        assert(hex@ =~= full@.subrange(2, i as int));
    }
    assert(hex@ =~= hex_lower(addr@, 40));
    let mut out: Vec<u8> = Vec::new();
    out.push(40u8);
    push_ascii(&mut out, &hex);
    out.push(4u8);
    proof {
        reveal_strlit("addr");
        reveal_strlit("reverse");
    }
    push_ascii(&mut out, &chars_of("addr"));
    out.push(7u8);
    push_ascii(&mut out, &chars_of("reverse"));
    out.push(0u8);
    assert(out@ =~= reverse_name_spec(addr));
    out
}

/// What one resolver call came to.
pub enum CallOutcome {
    /// The call returned this name (empty when there is no record).
    Returned(String),
    /// The error text of a failed call.
    Failed(String),
    /// The call did not finish in time.
    TimedOut,
}

/// What to do after a call.
#[derive(Debug)]
pub enum ReverseStep {
    /// A name was found.
    Found(String),
    /// A confirmed miss, to be cached.
    Miss,
    /// Wait this long, then make call number `attempt`.
    Retry { attempt: u32, backoff_ms: u64 },
    /// A failure not to be cached.
    GiveUp,
}

pub open spec fn revert_marker() -> Seq<char> {
    "execution reverted"@
}

/// A contract revert is deterministic; its text says `execution reverted`.
pub fn is_contract_revert(message: &str) -> (b: bool)
    ensures
        b == contains_seq(message@, revert_marker()),
{
    contains_chars(&chars_of(message), &chars_of("execution reverted"))
}

pub open spec fn backoff_spec(attempt: u32) -> nat {
    INITIAL_BACKOFF_MS as nat * vstd::arithmetic::power2::pow2(attempt as nat)
}

pub open spec fn reverse_step_spec(attempt: u32, outcome: CallOutcome) -> ReverseStep {
    match outcome {
        CallOutcome::Returned(name) => if name@.len() == 0 {
            ReverseStep::Miss
        } else {
            ReverseStep::Found(name)
        },
        CallOutcome::Failed(msg) => if contains_seq(msg@, revert_marker()) {
            ReverseStep::Miss
        } else if attempt < MAX_RETRIES {
            ReverseStep::Retry { attempt: (attempt + 1) as u32, backoff_ms: backoff_spec((attempt + 1) as u32) as u64 }
        } else {
            ReverseStep::GiveUp
        },
        CallOutcome::TimedOut => if attempt < MAX_RETRIES {
            ReverseStep::Retry { attempt: (attempt + 1) as u32, backoff_ms: backoff_spec((attempt + 1) as u32) as u64 }
        } else {
            ReverseStep::GiveUp
        },
    }
}

/// The retry decision after call number `attempt` (from 0): a name, a
/// miss for an empty name or a revert, a retry with doubling backoff while
/// retries remain, else giving up.
pub fn reverse_step(attempt: u32, outcome: CallOutcome) -> (r: ReverseStep)
    requires
        attempt <= MAX_RETRIES,
    ensures
        r == reverse_step_spec(attempt, outcome),
{
    let retry = attempt < MAX_RETRIES;
    match outcome {
        CallOutcome::Returned(name) => {
            if name.as_str().is_empty() {
                ReverseStep::Miss
            } else {
                ReverseStep::Found(name)
            }
        },
        CallOutcome::Failed(msg) => {
            if is_contract_revert(msg.as_str()) {
                ReverseStep::Miss
            } else if retry {
                ReverseStep::Retry { attempt: attempt + 1, backoff_ms: backoff_ms(attempt + 1) }
            } else {
                ReverseStep::GiveUp
            }
        },
        CallOutcome::TimedOut => {
            if retry {
                ReverseStep::Retry { attempt: attempt + 1, backoff_ms: backoff_ms(attempt + 1) }
            } else {
                ReverseStep::GiveUp
            }
        },
    }
}

fn backoff_ms(attempt: u32) -> (r: u64)
    requires
        1 <= attempt <= MAX_RETRIES,
    ensures
        r == backoff_spec(attempt),
{
    proof {
        vstd::arithmetic::power2::lemma2_to64();
    }
    if attempt == 1 {
        800
    } else {
        1600
    }
}

/// Counts of a resolution pass.
#[derive(Debug, Clone, Copy)]
pub struct EnsBatchStats {
    pub resolved: usize,
    pub miss: usize,
    pub errored: usize,
}

/// How one address of a batch ended.
#[derive(Clone, Copy, Debug, PartialEq, Eq, Structural)]
pub enum LookupResult {
    Resolved,
    Missed,
    Errored,
}

impl Default for EnsBatchStats {
    fn default() -> (r: EnsBatchStats)
        ensures
            r.resolved == 0 && r.miss == 0 && r.errored == 0,
    {
        EnsBatchStats { resolved: 0, miss: 0, errored: 0 }
    }
}

impl EnsBatchStats {
    /// Counts one address's result.
    pub fn record(&mut self, result: LookupResult)
        requires
            old(self).resolved < usize::MAX,
            old(self).miss < usize::MAX,
            old(self).errored < usize::MAX,
        ensures
            final(self).resolved == old(self).resolved + if result == LookupResult::Resolved { 1int } else { 0 },
            final(self).miss == old(self).miss + if result == LookupResult::Missed { 1int } else { 0 },
            final(self).errored == old(self).errored + if result == LookupResult::Errored { 1int } else { 0 },
    {
        match result {
            LookupResult::Resolved => {
                self.resolved = self.resolved + 1;
            },
            LookupResult::Missed => {
                self.miss = self.miss + 1;
            },
            LookupResult::Errored => {
                self.errored = self.errored + 1;
            },
        }
    }
}

} // verus!
