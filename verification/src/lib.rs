//! Core state machine for one perpetual-futures market inside a
//! margin-trading protocol: the market record with its lot sizing, risk
//! weights, fee schedule and funding accumulators; the two-sided order
//! book and its matching primitive; the bounded event queue that carries
//! fills to the settlement consumer; the oracle adapter; and the smoothed
//! stable-price tracker that gates risk-sensitive decisions.
//!
//! Account storage, signer verification, derived-address computation and
//! event transport are the host's concern and stay outside this crate.

pub mod book;
pub mod error;
pub mod event_queue;
pub mod market;
pub mod oracle;
pub mod stable_price;

pub use error::Error;
pub use error::ErrorKind;
