//! Store keys: per-contract records are persisted under `contract:<hex
//! address>`, per-day aggregates under `daily:<day timestamp>`.
use vstd::prelude::*;

use vstd::string::StringExecFns;

verus! {

/// Decimal digit character of a value below ten.
pub open spec fn dec_digit(d: nat) -> char
    recommends
        d < 10,
{
    ((d + 48) as u8) as char
}

/// The decimal digits of `n`, most significant first, with no sign and no
/// leading zeros ("0" for zero itself).
pub open spec fn dec_of(n: nat) -> Seq<char>
    decreases n,
{
    if n < 10 {
        seq![dec_digit(n)]
    } else {
        dec_of(n / 10).push(dec_digit(n % 10))
    }
}

/// Relies on `u64`'s `Display` implementation through
/// `ToString::to_string`: the decimal digits of the value, without sign,
/// padding, or leading zeros.
#[verifier::external_body]
fn u64_to_decimal(n: u64) -> (r: String)
    ensures
        r@ == dec_of(n as nat),
{
    n.to_string()
}

/// The store key under which a contract's cumulative record is persisted.
pub fn contract_key(address: &String) -> (key: String)
    ensures
        key@ == "contract:"@ + address@,
{
    let mut key = String::from_str("contract:");
    key.append(address.as_str());
    key
}

/// The store key under which a day's aggregate record is persisted.
pub fn daily_key(day_timestamp: u64) -> (key: String)
    ensures
        key@ == "daily:"@ + dec_of(day_timestamp as nat),
{
    let mut key = String::from_str("daily:");
    let digits = u64_to_decimal(day_timestamp);
    key.append(digits.as_str());
    key
}

} // verus!
