//! Attached payments: a plain coin value and the validation of the coins
//! attached to a call, performed by `cw_utils`.

use vstd::prelude::*;
use cosmwasm_std::{Addr, MessageInfo, Uint128};
use crate::error::PaymentFailure;

verus! {

/// One attached coin: a denomination and an amount of its atomic unit.
#[derive(Clone, Debug)]
pub struct Coin {
    pub denom: String,
    pub amount: u128,
}

/// The payment attached to a call is acceptable for `denom` exactly when it
/// is a single nonzero coin of that denomination.
pub open spec fn payment_ok(funds: Seq<Coin>, denom: Seq<char>) -> bool {
    funds.len() == 1 && funds[0].denom@ == denom && funds[0].amount > 0
}

/// Relies on `cw_utils::must_pay` (via `cw_utils::one_coin`): returns the
/// amount when exactly one coin of nonzero amount and of denomination
/// `denom` was attached; `NoFunds` when no coin or a single zero coin was
/// attached; `MultipleDenoms` for two or more coins; `MissingDenom` when the
/// single nonzero coin has another denomination.
#[verifier::external_body]
pub fn must_pay_amount(funds: &Vec<Coin>, denom: &String) -> (r: Result<u128, PaymentFailure>)
    ensures
        match r {
            Ok(a) => payment_ok(funds@, denom@) && a == funds@[0].amount,
            Err(PaymentFailure::NoFunds) => funds@.len() == 0 || (funds@.len() == 1
                && funds@[0].amount == 0),
            Err(PaymentFailure::MultipleDenoms) => funds@.len() > 1,
            Err(PaymentFailure::MissingDenom) => funds@.len() == 1 && funds@[0].amount > 0
                && funds@[0].denom@ != denom@,
            Err(_) => false,
        },
{
    let fs = funds.iter().map(
        |c| cosmwasm_std::Coin { denom: c.denom.clone(), amount: Uint128::new(c.amount) },
    ).collect();
    let info = MessageInfo { sender: Addr::unchecked(""), funds: fs };
    match cw_utils::must_pay(&info, denom) {
        Ok(a) => Ok(a.u128()),
        Err(cw_utils::PaymentError::NoFunds {}) => Err(PaymentFailure::NoFunds),
        Err(cw_utils::PaymentError::MultipleDenoms {}) => Err(PaymentFailure::MultipleDenoms),
        Err(cw_utils::PaymentError::MissingDenom(_)) => Err(PaymentFailure::MissingDenom),
        Err(cw_utils::PaymentError::ExtraDenom(_)) => Err(PaymentFailure::ExtraDenom),
        Err(cw_utils::PaymentError::NonPayable {}) => Err(PaymentFailure::NonPayable),
    }
}

} // verus!
