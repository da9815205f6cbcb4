//! What holds of the library as a whole.
pub mod audit;
pub mod broker;
pub mod decision;
pub mod encoding;
pub mod history;
pub mod keys;
pub mod keyslots;
pub mod logging;
pub mod making;
pub mod minting;
pub mod opening;
pub mod reading;
pub mod relaying;
pub mod starting;
pub mod storing;
pub mod telling;
pub mod vault;
pub mod views;
