use vstd::prelude::*;
use crate::db::DB;

verus! {

/// What one invocation of a procedure produced: its output bytes, or a
/// message saying why it failed.
pub enum ExtensionResult {
    /// The invocation succeeded with these output bytes.
    SUCCESS(Vec<u8>),
    /// The invocation failed; the message says where.
    ERROR(String),
}

/// The lifecycle interface an extension presents to the system that
/// loads it: wired up once, invoked per request, torn down once.
pub trait Extension<D: DB> {
    /// Called once the extension has been loaded; wires up whatever
    /// state the extension keeps for its lifetime.
    fn init(&mut self);

    /// Called once the extension is scheduled to be unloaded; tears
    /// that state down again.
    fn destroy(&mut self);

    /// Invokes the procedure: the data service to run against, the
    /// table this invocation works on, the input keys, and an argument
    /// blob.
    fn call(&mut self, db: &mut D, tbl_id: u64, keys: Vec<Vec<u8>>, args: Vec<u8>)
        -> ExtensionResult;
}

} // verus!
