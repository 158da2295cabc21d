//! The engine of a load generator for key-value servers: a latency histogram,
//! per-shard admission gates with the controller that ramps them, the context
//! that bounds a run, and the templates that commands are generated from.

pub mod async_flag;
pub mod auto_connection;
pub mod bench;
pub mod client;
pub mod clock;
pub mod command;
pub mod config;
pub mod conn_limiter;
pub mod counter;
pub mod histogram;
pub mod rate;
pub mod shared_context;
