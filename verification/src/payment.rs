//! Payments that the host is to make out of the contract's funds.

use ink_env::AccountId;
use vstd::prelude::*;

verus! {

/// A payment out of the contract's funds.
#[derive(Clone, Copy, Debug)]
pub struct Payment {
    /// The account that receives the money.
    pub to: AccountId,
    /// How much it receives.
    pub amount: u128,
}

/// The payments of a refund.
#[derive(Clone, Copy, Debug)]
pub struct RefundPayments {
    /// The customer's part.
    pub customer: Payment,
    /// The provider's part, where it receives any.
    pub provider: Option<Payment>,
}

} // verus!
