//! A multi-tenant in-memory key-value store with a cooperative
//! task-scheduling and pushback core.
//!
//! Clients issue three RPC kinds: native `get`, native `put`, and `invoke`
//! (run a named extension). The dispatcher turns each RPC into a resumable
//! task; a cooperative scheduler runs tasks under a cycle budget; an
//! extension task that overruns its budget is serialized into a pushback
//! response whose read/write-set lets the client resume the task against a
//! local replica of the data.

pub mod assoc;
pub mod auth;
pub mod client;
pub mod common;
pub mod container;
pub mod context;
pub mod db;
pub mod dbcontext;
pub mod extension_interface;
pub mod ext;
pub mod heap;
pub mod interp;
pub mod laws;
pub mod list;
pub mod master;
pub mod native;
pub mod pushback;
pub mod sched;
pub mod util;
pub mod wireformat;
pub mod workload;
pub mod table;
pub mod tao;
pub mod task;
pub mod tenant;
