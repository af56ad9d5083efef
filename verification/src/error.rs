//! Error taxonomy of the library.
//!
//! Payment and denomination faults mirror, variant for variant, the errors
//! of the outside payment and denomination checkers that the library calls;
//! store-level errors mirror the host's not-found and generic errors.

use vstd::prelude::*;

verus! {

/// Errors of the underlying store and of the query layer.
#[derive(Debug, PartialEq, Eq)]
pub enum StdError {
    NotFound {},
    GenericErr { msg: String },
}

/// Mathematical value of a [`StdError`].
pub enum StdErrorV {
    NotFound {},
    GenericErr { msg: Seq<char> },
}

impl View for StdError {
    type V = StdErrorV;

    open spec fn view(&self) -> StdErrorV {
        match self {
            StdError::NotFound {} => StdErrorV::NotFound {},
            StdError::GenericErr { msg } => StdErrorV::GenericErr { msg: msg@ },
        }
    }
}

impl StdError {
    /// A generic error carrying a human-readable message.
    pub fn generic_err(msg: &str) -> (r: StdError)
        ensures
            r@ == (StdErrorV::GenericErr { msg: msg@ }),
    {
        StdError::GenericErr { msg: msg.to_owned() }
    }

    /// The error returned when a record is missing from the store.
    pub fn not_found() -> (r: StdError)
        ensures
            r@ == (StdErrorV::NotFound {}),
    {
        StdError::NotFound {}
    }
}

/// Faults raised when the funds attached to a message do not have the
/// required shape. Mirrors the payment checker's error set.
#[derive(Debug, PartialEq, Eq)]
pub enum PaymentError {
    MissingDenom(String),
    ExtraDenom(String),
    MultipleDenoms {},
    NoFunds {},
    NonPayable {},
}

/// Mathematical value of a [`PaymentError`].
pub enum PaymentErrorV {
    MissingDenom(Seq<char>),
    ExtraDenom(Seq<char>),
    MultipleDenoms {},
    NoFunds {},
    NonPayable {},
}

impl View for PaymentError {
    type V = PaymentErrorV;

    open spec fn view(&self) -> PaymentErrorV {
        match self {
            PaymentError::MissingDenom(d) => PaymentErrorV::MissingDenom(d@),
            PaymentError::ExtraDenom(d) => PaymentErrorV::ExtraDenom(d@),
            PaymentError::MultipleDenoms {} => PaymentErrorV::MultipleDenoms {},
            PaymentError::NoFunds {} => PaymentErrorV::NoFunds {},
            PaymentError::NonPayable {} => PaymentErrorV::NonPayable {},
        }
    }
}

/// Faults raised when an asset denomination is not syntactically valid.
/// Mirrors the denomination checker's error set for native denominations.
#[derive(Debug, PartialEq, Eq)]
pub enum DenomError {
    NativeDenomLength { len: usize },
    NonAlphabeticAscii,
    InvalidCharacter { c: char },
}

/// Mathematical value of a [`DenomError`].
pub enum DenomErrorV {
    NativeDenomLength { len: nat },
    NonAlphabeticAscii,
    InvalidCharacter { c: char },
}

impl View for DenomError {
    type V = DenomErrorV;

    open spec fn view(&self) -> DenomErrorV {
        match self {
            DenomError::NativeDenomLength { len } => DenomErrorV::NativeDenomLength {
                len: *len as nat,
            },
            DenomError::NonAlphabeticAscii => DenomErrorV::NonAlphabeticAscii,
            DenomError::InvalidCharacter { c } => DenomErrorV::InvalidCharacter { c: *c },
        }
    }
}

/// Every error a lifecycle transition can fail with.
#[derive(Debug, PartialEq, Eq)]
pub enum ContractError {
    Std(StdError),
    Payment(PaymentError),
    Denom(DenomError),
    Unauthorized,
    DealNotFound,
    InvalidDuration(u64, u64),
    DealExpired,
    InsufficientAmount(u128),
}

/// Mathematical value of a [`ContractError`].
pub enum ContractErrorV {
    Std(StdErrorV),
    Payment(PaymentErrorV),
    Denom(DenomErrorV),
    Unauthorized,
    DealNotFound,
    InvalidDuration(u64, u64),
    DealExpired,
    InsufficientAmount(u128),
}

impl View for ContractError {
    type V = ContractErrorV;

    open spec fn view(&self) -> ContractErrorV {
        match self {
            ContractError::Std(e) => ContractErrorV::Std(e@),
            ContractError::Payment(e) => ContractErrorV::Payment(e@),
            ContractError::Denom(e) => ContractErrorV::Denom(e@),
            ContractError::Unauthorized => ContractErrorV::Unauthorized,
            ContractError::DealNotFound => ContractErrorV::DealNotFound,
            ContractError::InvalidDuration(lo, hi) => ContractErrorV::InvalidDuration(*lo, *hi),
            ContractError::DealExpired => ContractErrorV::DealExpired,
            ContractError::InsufficientAmount(a) => ContractErrorV::InsufficientAmount(*a),
        }
    }
}

} // verus!
