//! Text that the ledger writes into its audit trail.
use vstd::prelude::*;
use vstd::string::StringExecFns;

verus! {

/// The decimal digit for `d`, which is below ten.
pub open spec fn digit_char(d: nat) -> char {
    seq!['0', '1', '2', '3', '4', '5', '6', '7', '8', '9'][d as int]
}

/// The decimal numeral of `n`, without leading zeros.
pub open spec fn decimal(n: nat) -> Seq<char>
    decreases n,
{
    if n < 10 {
        seq![digit_char(n)]
    } else {
        decimal(n / 10).push(digit_char(n % 10))
    }
}

/// The audit text for a reward of `n` minor units.
pub open spec fn reward_text(n: nat) -> Seq<char> {
    "Distributed reward of "@ + decimal(n)
}

/// Relies on `ToString` for `u64` (through its `Display`): the decimal numeral
/// of the number.
#[verifier::external_body]
fn decimal_string(n: u64) -> (r: String)
    ensures
        r@ == decimal(n as nat),
{
    n.to_string()
}

/// The audit text for a reward of `reward` minor units.
pub fn reward_details(reward: u64) -> (r: String)
    ensures
        r@ == reward_text(reward as nat),
{
    let prefix = String::from_str("Distributed reward of ");
    let digits = decimal_string(reward);
    prefix.concat(digits.as_str())
}

} // verus!
