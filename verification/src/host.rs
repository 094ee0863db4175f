//! Plain-value images of the host runtime's transaction context and result.
//!
//! The host hands each command the caller's identity and attached funds, and
//! takes back a result carrying audit attributes and the fund-transfer
//! instructions it must execute atomically with the state write.

use vstd::prelude::*;
use vstd::string::StringExecFns;

verus! {

/// An amount of one denomination.
#[derive(Debug, Clone, PartialEq, Eq)]
pub struct Coin {
    pub denom: String,
    pub amount: u128,
}

/// The transaction context: who sent the command, and what funds came with
/// it.
#[derive(Debug, Clone, PartialEq, Eq)]
pub struct MessageInfo {
    pub sender: String,
    pub funds: Vec<Coin>,
}

/// An instruction to the host: move `amount` units of `denom` from the
/// contract's balance to `to_address`.
#[derive(Debug, Clone, PartialEq, Eq)]
pub struct BankTransfer {
    pub to_address: String,
    pub denom: String,
    pub amount: u128,
}

/// One audit key-value pair of a successful result.
#[derive(Debug, Clone, PartialEq, Eq)]
pub struct Attribute {
    pub key: String,
    pub value: String,
}

/// A successful result: queued transfer instructions and audit attributes.
#[derive(Debug, Clone, PartialEq, Eq)]
pub struct Response {
    pub messages: Vec<BankTransfer>,
    pub attributes: Vec<Attribute>,
}

/// The one denomination accepted as payment.
pub open spec fn payment_denom() -> Seq<char> {
    "uastra"@
}

/// The amount of the first attached coin in the accepted denomination, if
/// any: the coin the buy handler inspects. Coins of other denominations are
/// passed over whatever they hold.
pub open spec fn first_payment(funds: Seq<Coin>) -> Option<u128>
    decreases funds.len(),
{
    if funds.len() == 0 {
        None
    } else if funds[0].denom@ == payment_denom() {
        Some(funds[0].amount)
    } else {
        first_payment(funds.drop_first())
    }
}

/// Scans the attached funds for the accepted denomination.
pub fn find_payment(funds: &Vec<Coin>) -> (r: Option<u128>)
    ensures
        r == first_payment(funds@),
{
    let accepted = uastra();
    let mut i: usize = 0;
    proof {
        assert(funds@.skip(0) =~= funds@);
    }
    loop
        invariant
            i <= funds@.len(),
            accepted@ == payment_denom(),
            first_payment(funds@) == first_payment(funds@.skip(i as int)),
        decreases funds@.len() - i,
    {
        if i == funds.len() {
            assert(funds@.skip(i as int).len() == 0);
            return None;
        }
        assert(funds@.skip(i as int)[0] == funds@[i as int]);
        if funds[i].denom == accepted {
            return Some(funds[i].amount);
        }
        proof {
            assert(funds@.skip(i as int).drop_first() =~= funds@.skip(i as int + 1));
        }
        i += 1;
    }
}

/// The accepted payment denomination as an owned string.
pub fn uastra() -> (r: String)
    ensures
        r@ == payment_denom(),
{
    String::from_str("uastra")
}

/// Builds one audit attribute.
pub fn attribute(key: &str, value: String) -> (r: Attribute)
    ensures
        r.key@ == key@,
        r.value@ == value@,
{
    Attribute { key: String::from_str(key), value }
}

} // verus!
