//! Labelling unknown counterparties one by one: what each answer means and
//! the tally of the session.

use vstd::prelude::*;

use crate::db::UnknownCounterparty;
use crate::primitives::{address_hex, address_to_hex, dec_digits};
use crate::render::chain_column;
use crate::text::{ascii_lower, chars_of, lower_char, push_decimal, push_text, string_of};

verus! {

/// Labels saved and entries skipped in one session.
#[derive(Debug, Clone, Copy)]
pub struct PromptOutcome {
    pub tagged: usize,
    pub skipped: usize,
}

/// What a typed label asks for.
#[derive(Debug, PartialEq, Eq, Structural)]
pub enum LabelAnswer {
    /// `q` in any case: stop.
    Quit,
    /// Nothing typed: skip this entry.
    Skip,
    /// Save the label.
    Label,
}

pub open spec fn label_answer_spec(label: Seq<char>) -> LabelAnswer {
    if ascii_lower(label) == seq!['q'] {
        LabelAnswer::Quit
    } else if label.len() == 0 {
        LabelAnswer::Skip
    } else {
        LabelAnswer::Label
    }
}

/// Reads a (trimmed) label answer.
pub fn label_answer(label: &str) -> (r: LabelAnswer)
    ensures
        r == label_answer_spec(label@),
{
    let v = chars_of(label);
    if v.len() == 1 && (v[0] == 'q' || v[0] == 'Q') {
        assert(ascii_lower(v@) =~= seq!['q']);
        return LabelAnswer::Quit;
    }
    proof {
        if ascii_lower(label@) == seq!['q'] {
            assert(ascii_lower(label@).len() == label@.len());
            let c = label@[0];
            assert(ascii_lower(label@)[0] == lower_char(c));
            if 'A' <= c && c <= 'Z' {
                assert((((c as nat) + 32) as char) as nat == (c as nat) + 32);
                assert(c as nat == 81);
                assert(c == 'Q');
            }
            assert(v@ == label@);
            assert(false);
        }
    }
    if v.len() == 0 {
        LabelAnswer::Skip
    } else {
        LabelAnswer::Label
    }
}

/// The kind saved with a label: as typed, `contract` when left empty.
pub fn label_kind(kind: &str) -> (r: String)
    ensures
        r@ == if kind@.len() == 0 { "contract"@ } else { kind@ },
{
    if kind.is_empty() {
        string_of(&chars_of("contract"))
    } else {
        string_of(&chars_of(kind))
    }
}

impl PromptOutcome {
    pub fn new() -> (r: PromptOutcome)
        ensures
            r.tagged == 0 && r.skipped == 0,
    {
        PromptOutcome { tagged: 0, skipped: 0 }
    }

    /// Counts one answered entry.
    pub fn record(&mut self, answer: &LabelAnswer)
        requires
            old(self).tagged < usize::MAX,
            old(self).skipped < usize::MAX,
        ensures
            final(self).tagged == old(self).tagged + if *answer == LabelAnswer::Label { 1int } else { 0 },
            final(self).skipped == old(self).skipped + if *answer == LabelAnswer::Skip { 1int } else { 0 },
    {
        match answer {
            LabelAnswer::Label => {
                self.tagged = self.tagged + 1;
            },
            LabelAnswer::Skip => {
                self.skipped = self.skipped + 1;
            },
            LabelAnswer::Quit => {},
        }
    }

    /// Entries neither tagged nor skipped, of `total`.
    pub fn remaining(&self, total: usize) -> (r: usize)
        requires
            self.tagged + self.skipped <= total,
        ensures
            r == total - self.tagged - self.skipped,
    {
        total - self.tagged - self.skipped
    }
}

/// The line introducing entry `index` (from 0) of `total`.
pub open spec fn entry_header_spec(index: nat, total: nat, item: UnknownCounterparty) -> Seq<char> {
    "\n["@ + dec_digits(index + 1) + "/"@ + dec_digits(total) + "] "@ + chain_column(item.chain_id) + "  "@
        + address_hex(item.address) + "  ("@ + dec_digits(item.interactions as nat) + " interaction"@ + if item.interactions
        == 1 {
        seq![]
    } else {
        seq!['s']
    } + ")"@
}

pub fn entry_header(index: usize, total: usize, item: &UnknownCounterparty) -> (r: String)
    requires
        index < total,
    ensures
        r@ == entry_header_spec(index as nat, total as nat, *item),
{
    let mut out = chars_of("\n[");
    push_decimal(&mut out, (index + 1) as u64);
    push_text(&mut out, "/");
    push_decimal(&mut out, total as u64);
    push_text(&mut out, "] ");
    let chain = crate::render::chain_text(item.chain_id);
    push_text(&mut out, chain.as_str());
    push_text(&mut out, "  ");
    push_text(&mut out, address_to_hex(item.address).as_str());
    push_text(&mut out, "  (");
    push_decimal(&mut out, item.interactions);
    push_text(&mut out, " interaction");
    if item.interactions != 1 {
        out.push('s');
    }
    push_text(&mut out, ")");
    let r = string_of(&out);
    assert(r@ =~= entry_header_spec(index as nat, total as nat, *item));
    r
}

} // verus!
