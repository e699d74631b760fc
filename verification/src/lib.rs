//! A ledger of value transfers between identities, with one-shot and
//! recurring payment plans and a per-identity payment history.

pub mod auth;
pub mod laws;
pub mod ledger;
pub mod model;
pub mod registry;
pub mod rules;
pub mod system;
