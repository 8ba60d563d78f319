//! Size budgets for the release builds of the contracts, and the check that a
//! built artifact stays within its budget.

use vstd::prelude::*;

verus! {

/// The decimal digit `d` as a character.
pub open spec fn digit_char(d: nat) -> char {
    (48 + d) as char
}

/// The decimal spelling of `n`, without sign or leading zeros.
pub open spec fn decimal(n: nat) -> Seq<char>
    decreases n,
{
    if n < 10 {
        seq![digit_char(n)]
    } else {
        decimal(n / 10).push(digit_char(n % 10))
    }
}

/// The text that refuses an artifact of `size` bytes against a budget of `max_bytes`.
pub open spec fn budget_refusal(contract: Seq<char>, size: nat, max_bytes: nat) -> Seq<char> {
    "WASM size for '"@ + contract + "' is "@ + decimal(size) + " bytes, which exceeds the budget of "@
        + decimal(max_bytes) + " bytes."@
}

/// Writes the refusal text with `format!`: its `{}` writes a `&str` unchanged and a
/// `usize` in decimal.
#[verifier::external_body]
fn budget_refusal_text(contract: &str, size: usize, max_bytes: usize) -> (text: String)
    ensures
        text@ == budget_refusal(contract@, size as nat, max_bytes as nat),
{
    format!(
        "WASM size for '{}' is {} bytes, which exceeds the budget of {} bytes.",
        contract,
        size,
        max_bytes,
    )
}

/// Accepts an artifact of `size` bytes when it fits the budget of `max_bytes`;
/// otherwise refuses it with a text naming the artifact, its size and the budget.
pub fn verify_wasm_size(contract: &str, size: usize, max_bytes: usize) -> (r: Result<(), String>)
    ensures
        r is Ok <==> size <= max_bytes,
        r matches Err(text) ==> text@ == budget_refusal(contract@, size as nat, max_bytes as nat),
{
    if size <= max_bytes {
        Ok(())
    } else {
        Err(budget_refusal_text(contract, size, max_bytes))
    }
}

/// The documented size budget, in bytes, of each contract's release artifact.
pub fn wasm_size_budgets() -> (r: Vec<(&'static str, usize)>)
    ensures
        r.len() == 5,
        r[0].0@ == "remittance_split.wasm"@ && r[0].1 == 48_297,
        r[1].0@ == "savings_goals.wasm"@ && r[1].1 == 55_527,
        r[2].0@ == "bill_payments.wasm"@ && r[2].1 == 39_523,
        r[3].0@ == "insurance.wasm"@ && r[3].1 == 42_057,
        r[4].0@ == "family_wallet.wasm"@ && r[4].1 == 63_296,
{
    vec![
        ("remittance_split.wasm", 48_297),
        ("savings_goals.wasm", 55_527),
        ("bill_payments.wasm", 39_523),
        ("insurance.wasm", 42_057),
        ("family_wallet.wasm", 63_296),
    ]
}

} // verus!
