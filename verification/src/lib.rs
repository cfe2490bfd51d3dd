pub mod block;
pub mod chain;
pub mod decimal;
pub mod hashing;
pub mod ledger;
pub mod transaction;
