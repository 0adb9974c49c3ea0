//! Subscription purchases with time-proportional refunds and deferred
//! payouts, kept per provider in a ledger of locked funds ordered by the
//! day on which they mature.
//!
//! A purchase pays one part of its price to the provider at once and locks
//! the other. What is locked goes back to the customer on an early refund,
//! in proportion to the time that is left, and to the provider once the
//! term has passed.
//!
//! - [`payout`] computes what is locked, what is paid at once, and how a
//!   refund is split.
//! - [`ledger`] keeps one provider's locked funds by day of maturity;
//!   [`ledger_laws`] states what holds of every ledger.
//! - [`contract`] holds the state: providers with their plans and ledgers,
//!   customers, their purchases, and usernames. [`model`] is that state as a
//!   mathematical value, with each operation as a function on it.
//! - [`catalog`], [`subscription`], [`auth`] and [`history`] are the
//!   operations; [`laws`] states what holds of them.
//! - [`bucket_store`], [`index_store`], [`name_store`] and [`account`] are
//!   the borders to the host's storage maps and account identifiers.
//!
//! The library reads no clock and moves no money. Every operation takes the
//! caller, the time and the payment attached to the call as arguments, and
//! an operation that pays out takes the outcome of the payment, which the
//! host makes.

pub mod account;
pub mod auth;
pub mod bucket_store;
pub mod catalog;
pub mod contract;
pub mod error;
pub mod events;
pub mod history;
pub mod index_store;
pub mod laws;
pub mod ledger;
pub mod ledger_laws;
pub mod model;
pub mod model_lemmas;
pub mod name_store;
pub mod payment;
pub mod payout;
pub mod records;
pub mod steps;
pub mod subscription;
pub mod table;
