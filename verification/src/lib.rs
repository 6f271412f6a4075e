//! A ledger of per-user savings commitments.
//!
//! The library tracks, for each identity, an aggregate balance and a set of
//! savings plans of four kinds (open-ended, time-locked, goal-targeted and
//! group-pooled), and enforces the rules governing plan creation, maturity,
//! withdrawal, administrative control and fee bounds.  All records live in a
//! typed key-value store modelled by [`store::Store`]; the entry points are
//! methods of [`contract::NesteraContract`].  Callers supply the acting
//! identity and the current ledger time; authorization of that identity and
//! durable persistence are the host's concern.

pub mod errors;
pub mod storage_types;
pub mod contract;
pub mod laws;
pub mod store;

pub use errors::SavingsError;
pub use storage_types::{DataKey, Identity, PlanType, SavingsPlan, ShortSymbol, User};
