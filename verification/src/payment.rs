//! Checks on the funds attached to a message, performed by the outside
//! payment utilities.

use crate::error::PaymentError;
use crate::error::PaymentErrorV;
use crate::state::Coin;
use crate::state::CoinV;
use crate::state::coins_view;
use vstd::prelude::*;

verus! {

/// What the one-coin check answers for given funds: the single attached
/// coin when there is exactly one and its amount is not zero, `NoFunds`
/// when there is none or its amount is zero, `MultipleDenoms` when there
/// are several.
pub open spec fn one_coin_spec(funds: Seq<CoinV>) -> Result<CoinV, PaymentErrorV> {
    if funds.len() == 0 {
        Err(PaymentErrorV::NoFunds {})
    } else if funds.len() == 1 {
        if funds[0].amount == 0 {
            Err(PaymentErrorV::NoFunds {})
        } else {
            Ok(funds[0])
        }
    } else {
        Err(PaymentErrorV::MultipleDenoms {})
    }
}

/// What the must-pay check answers for given funds and denomination: the
/// attached amount when exactly one nonzero coin of that denomination is
/// attached; the one-coin fault or `MissingDenom` otherwise.
pub open spec fn must_pay_spec(funds: Seq<CoinV>, denom: Seq<char>) -> Result<
    u128,
    PaymentErrorV,
> {
    match one_coin_spec(funds) {
        Err(e) => Err(e),
        Ok(c) => if c.denom != denom {
            Err(PaymentErrorV::MissingDenom(denom))
        } else {
            Ok(c.amount)
        },
    }
}

/// Relies on cw_utils::must_pay: answers exactly as [`must_pay_spec`]
/// describes, over the attached funds and the denomination alone.
#[verifier::external_body]
pub(crate) fn must_pay(funds: &Vec<Coin>, denom: &str) -> (r: Result<u128, PaymentError>)
    ensures
        match r {
            Ok(a) => must_pay_spec(coins_view(funds@), denom@) == Ok::<u128, PaymentErrorV>(a),
            Err(e) => must_pay_spec(coins_view(funds@), denom@) == Err::<u128, PaymentErrorV>(e@),
        },
{
    let info = cosmwasm_std::MessageInfo {
        sender: cosmwasm_std::Addr::unchecked("caller"),
        funds: funds.iter().map(|c| cosmwasm_std::coin(c.amount, &c.denom)).collect(),
    };
    match cw_utils::must_pay(&info, denom) {
        Ok(a) => Ok(a.u128()),
        Err(cw_utils::PaymentError::NoFunds {}) => Err(PaymentError::NoFunds {}),
        Err(cw_utils::PaymentError::MultipleDenoms {}) => Err(PaymentError::MultipleDenoms {}),
        Err(cw_utils::PaymentError::MissingDenom(d)) => Err(PaymentError::MissingDenom(d)),
        Err(cw_utils::PaymentError::ExtraDenom(d)) => Err(PaymentError::ExtraDenom(d)),
        Err(cw_utils::PaymentError::NonPayable {}) => Err(PaymentError::NonPayable {}),
    }
}

} // verus!
