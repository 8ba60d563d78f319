//! Short symbols and their packed on-ledger encoding.

use vstd::prelude::*;

verus! {

/// A character that a short symbol may hold: `_`, an ASCII digit or letter.
pub open spec fn is_symbol_char(c: char) -> bool {
    c == '_' || ('0' <= c && c <= '9') || ('A' <= c && c <= 'Z') || ('a' <= c && c <= 'z')
}

/// A text that fits a short (packed, at most nine characters) symbol.
pub open spec fn is_short_symbol(text: Seq<char>) -> bool {
    text.len() <= 9 && forall|i: int| 0 <= i < text.len() ==> is_symbol_char(#[trigger] text[i])
}

/// The 64-bit value that the ledger uses to carry the short symbol spelled `text`.
pub uninterp spec fn short_symbol_bits(text: Seq<char>) -> u64;

/// Packs `text` into a short symbol with `soroban_sdk::Symbol::short` and returns
/// the 64-bit payload of its value (`to_val().get_payload()`). The result is
/// taken to depend on the text alone; its bit layout is not stated here.
#[verifier::external_body]
pub(crate) fn symbol_bits(text: &str) -> (bits: u64)
    requires
        is_short_symbol(text@),
    ensures
        bits == short_symbol_bits(text@),
{
    #[allow(deprecated)]
    let sym = soroban_sdk::Symbol::short(text);
    sym.to_val().get_payload()
}

} // verus!
