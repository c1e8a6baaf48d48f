pub mod blockchain;
pub mod commands;
pub mod encoding;
pub mod hashing;
pub mod ledger;
