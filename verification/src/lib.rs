//! Collateralized installment-loan lifecycle engine.
//!
//! The crate tracks loans from origination through payoff or default:
//! amortized payment computation, interest/principal attribution of each
//! payment, missed-payment tracking, and the state machine
//! `Pending -> Active -> {Repaid, Defaulted}`.

pub mod amortization;
pub mod errors;
pub mod loan;
pub mod lifecycle;
pub mod manager;
pub mod registry;
