//! A wrapped-ICP token ledger (DIP20 style): balances, allowances, fees,
//! minting from ledger notifications, burning on withdrawal, the local
//! transaction history and the queue of events that still have to reach
//! the history canister.

pub mod principal;
pub mod amount_map;
pub mod supply;
pub mod records;
pub mod token_spec;
pub mod cap_log;
pub mod token;
pub mod laws;
pub mod holders;
