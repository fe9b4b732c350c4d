//! DormChain SafePay: the logic of a contract for a shared dormitory room that
//!
//!  1. splits utility bills equally among registered tenants, and
//!  2. holds security deposits in escrow until both landlord and tenants
//!     mutually approve a digital move-out inspection.
//!
//! A call of the contract ([`DormChainSafePay`]) reads the ledger entries and
//! answers with a [`Plan`]: the authorizations, token transfers and ledger writes
//! that the host has to carry out, in order, and how the call ends. The modules
//! [`model`] and [`books`] say in mathematical terms what a call plans and when
//! the books are in order. [`outcomes`] states and proves what each call comes to
//! on any ledger, and [`laws`] what holds of the contract as a whole.
pub mod books;
pub mod contract;
pub mod entries;
pub mod escrows;
pub mod laws;
pub mod ledger_vec;
mod lemmas;
pub mod model;
pub mod outcomes;

pub use contract::DormChainSafePay;
pub use entries::{Bill, DataKey, DepositEscrow, Effect, Entry, Error, Failure, Plan, Room};
pub use ledger_vec::{Address, AddressList, FlagList};
