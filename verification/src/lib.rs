//! Reconciles the money spent with one counterparty, as recorded in a bank
//! statement, against the present value of the exchange account it funded.
//!
//! All amounts are exact fixed-point numbers; see [`decimal`].

pub mod crypto;
pub mod decimal;
pub mod fetcher;
pub mod ledger;
pub mod models;
pub mod reconcile;
pub mod signer;
pub mod text;
pub mod valuation;
