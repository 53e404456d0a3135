//! The verified core of a small multi-tenant edge worker runtime.

pub mod env;
pub mod error;
pub mod event_loop;
pub mod http;
pub mod limits;
pub mod load;
pub mod metrics;
pub mod ops;
pub mod options;
pub mod pool;
pub mod protocol;
pub mod router;
pub mod server;
pub mod tally;
pub mod text;
pub mod thread;
pub mod worker;
