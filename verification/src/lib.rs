//! A bounded pool of reusable connections, as a state machine.
//!
//! A pool creates connections lazily, never more than its capacity, lends
//! each one to a single holder at a time and takes it back when the holder is
//! done. This crate holds the pool's bookkeeping and the decisions it makes;
//! it neither blocks nor talks to a server. A caller that shares a pool
//! between threads keeps it behind its own lock, sleeps when the pool tells
//! it to wait and wakes a sleeper after each return.
//!
//! - `pool`: the pool, [`MyPool`], and what it does with a request, a new
//!   connection and a return.
//! - `lease`: [`MyPooledConn`], a connection as its holder has it.
//! - `view`: the books of a pool as mathematics. Every contract is stated
//!   over them.
//! - `history`: what the books become over a run of requests and returns.
//! - `laws`: what holds of every pool, proved over books and histories.

pub mod history;
pub mod laws;
pub mod lease;
pub mod pool;
pub mod view;

pub use lease::MyPooledConn;
pub use pool::MyPool;
pub use view::{Decision, Entry, PoolView};
