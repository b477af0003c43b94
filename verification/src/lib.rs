// A ledger of non-transferable value: balances are kept per account, per
// application scope and per value class, value moves only between an account
// and the scopes it deals with, and every movement into or out of a scope is
// settled in two steps around a remote call.

pub mod account;
pub mod amounts;
pub mod error;
pub mod events;
pub mod flows;
pub mod laws;
pub mod ledger;
pub mod ledger_model;
pub mod payload;
pub mod settlement;
pub mod storage;
pub mod token;
pub mod token_model;
