pub mod account;
pub mod csv;
pub mod decimal;
pub mod engine;
pub mod error;
