//! Why an operation was refused.

use vstd::prelude::*;

verus! {

/// The five classes of refusal.
#[derive(Clone, Copy, Debug, PartialEq, Eq, Structural)]
pub enum ErrorKind {
    /// The arguments do not fit the operation or the plan.
    Validation,
    /// The caller is not registered for what it asks.
    Authorization,
    /// What the call names does not exist.
    NotFound,
    /// The state of the subscription does not allow the operation.
    StateConflict,
    /// The payment that belongs to the operation was not made.
    Funds,
}

/// How the host's transfer of funds failed.
#[derive(Clone, Copy, Debug, PartialEq, Eq, Structural)]
pub enum TransferError {
    /// The transfer would have left the sender below the reserve that it
    /// must keep.
    BelowSubsistenceThreshold,
    /// The transfer failed for another reason.
    TransferFailed,
}

/// Why an operation was refused. A refused operation changes nothing.
#[derive(Clone, Copy, Debug, PartialEq, Eq, Structural)]
pub enum Error {
    /// The lists of plan terms differ in length.
    WrongNumberOfArgs,
    /// Less than the registration fee was paid.
    FeeNotPaid,
    /// The username belongs to another account.
    InvalidUsername,
    /// The payment differs from the plan's price.
    WrongPayment,
    /// The provider has disabled the plan.
    PlanDisabled,
    /// The number of characteristic values differs from what the plan declares.
    InvalidCharacteristics,
    /// The plan's terms or the time of the call cannot be accounted for:
    /// more than a thousand permille, a price whose thousandfold exceeds 128
    /// bits, a time before the ledger's epoch, or a maturity beyond 64 bits.
    TermsOutOfRange,
    /// A store or ledger cannot take another entry.
    LimitExceeded,
    /// The caller is not a registered provider.
    NotRegistered,
    /// No provider is registered under the account.
    ProviderNotFound,
    /// The provider has no plan at the index.
    PlanNotFound,
    /// The account has never subscribed.
    UserNotFound,
    /// The customer has no record with the provider.
    RecordNotFound,
    /// No account is registered under the username, or no username under
    /// the account.
    UsernameNotFound,
    /// The pass phrase does not hash to the stored value.
    WrongAuth,
    /// The account is registered as a provider already.
    AlreadyRegistered,
    /// The customer has an active subscription to the plan.
    AlreadySubscribed,
    /// The customer has no subscription to the plan that is neither refunded
    /// nor matured.
    NotSubscribed,
    /// The term of the subscription has not begun.
    TermNotStarted,
    /// The money locked for the subscription has left the ledger.
    LockedFundsSettled,
    /// The transfer would have left the sender below its reserve.
    BelowSubsistenceThreshold,
    /// The transfer failed.
    TransferFailed,
}

impl Error {
    /// The class of the refusal.
    pub open spec fn spec_kind(self) -> ErrorKind {
        match self {
            Error::WrongNumberOfArgs => ErrorKind::Validation,
            Error::FeeNotPaid => ErrorKind::Validation,
            Error::InvalidUsername => ErrorKind::Validation,
            Error::WrongPayment => ErrorKind::Validation,
            Error::PlanDisabled => ErrorKind::Validation,
            Error::InvalidCharacteristics => ErrorKind::Validation,
            Error::TermsOutOfRange => ErrorKind::Validation,
            Error::LimitExceeded => ErrorKind::Validation,
            Error::NotRegistered => ErrorKind::Authorization,
            Error::WrongAuth => ErrorKind::Authorization,
            Error::ProviderNotFound => ErrorKind::NotFound,
            Error::PlanNotFound => ErrorKind::NotFound,
            Error::UserNotFound => ErrorKind::NotFound,
            Error::RecordNotFound => ErrorKind::NotFound,
            Error::UsernameNotFound => ErrorKind::NotFound,
            Error::AlreadyRegistered => ErrorKind::StateConflict,
            Error::AlreadySubscribed => ErrorKind::StateConflict,
            Error::NotSubscribed => ErrorKind::StateConflict,
            Error::TermNotStarted => ErrorKind::StateConflict,
            Error::LockedFundsSettled => ErrorKind::StateConflict,
            Error::BelowSubsistenceThreshold => ErrorKind::Funds,
            Error::TransferFailed => ErrorKind::Funds,
        }
    }

    /// The class of the refusal.
    pub fn kind(self) -> (kind: ErrorKind)
        ensures
            kind == self.spec_kind(),
    {
        match self {
            Error::WrongNumberOfArgs => ErrorKind::Validation,
            Error::FeeNotPaid => ErrorKind::Validation,
            Error::InvalidUsername => ErrorKind::Validation,
            Error::WrongPayment => ErrorKind::Validation,
            Error::PlanDisabled => ErrorKind::Validation,
            Error::InvalidCharacteristics => ErrorKind::Validation,
            Error::TermsOutOfRange => ErrorKind::Validation,
            Error::LimitExceeded => ErrorKind::Validation,
            Error::NotRegistered => ErrorKind::Authorization,
            Error::WrongAuth => ErrorKind::Authorization,
            Error::ProviderNotFound => ErrorKind::NotFound,
            Error::PlanNotFound => ErrorKind::NotFound,
            Error::UserNotFound => ErrorKind::NotFound,
            Error::RecordNotFound => ErrorKind::NotFound,
            Error::UsernameNotFound => ErrorKind::NotFound,
            Error::AlreadyRegistered => ErrorKind::StateConflict,
            Error::AlreadySubscribed => ErrorKind::StateConflict,
            Error::NotSubscribed => ErrorKind::StateConflict,
            Error::TermNotStarted => ErrorKind::StateConflict,
            Error::LockedFundsSettled => ErrorKind::StateConflict,
            Error::BelowSubsistenceThreshold => ErrorKind::Funds,
            Error::TransferFailed => ErrorKind::Funds,
        }
    }

    /// The refusal that a failed transfer leads to.
    pub open spec fn of_transfer(failure: TransferError) -> Error {
        match failure {
            TransferError::BelowSubsistenceThreshold => Error::BelowSubsistenceThreshold,
            TransferError::TransferFailed => Error::TransferFailed,
        }
    }

    /// The refusal that a failed transfer leads to.
    pub fn from_transfer(failure: TransferError) -> (error: Error)
        ensures
            error == Error::of_transfer(failure),
    {
        match failure {
            TransferError::BelowSubsistenceThreshold => Error::BelowSubsistenceThreshold,
            TransferError::TransferFailed => Error::TransferFailed,
        }
    }
}

} // verus!
