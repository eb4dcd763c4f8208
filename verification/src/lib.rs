//! Box spread scanner: the wire protocol of the broker gateway, the market data it
//! reports, and the search for the most liquid box spread.
pub mod boxspread;
pub mod config;
pub mod data;
pub mod dates;
pub mod decimal;
pub mod keyed;
pub mod laws;
pub mod market;
pub mod message;
pub mod requests;
pub mod search;
pub mod views;

pub use config::Config;
pub use market::{IBData, OptionChainParams, OptionQuote};
