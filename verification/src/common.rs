use vstd::prelude::*;

verus! {

/// Identifier of a tenant; tenants are the isolation unit of the store.
pub type TenantId = u64;

/// Identifier of a table within a tenant.
pub type TableId = u64;

/// Number of buckets in the sharded tenant registry (a power of two).
pub const TENANT_BUCKETS: usize = 32;

/// Width of the key field of a pushback record.
pub const KEY_LENGTH: usize = 30;

/// Width of the value field of a pushback record.
pub const RECORD_VALUE_LENGTH: usize = 40;

/// Width of one pushback record: a one-byte type tag, then the key,
/// then the value.
pub const RECORD_SIZE: usize = 1 + KEY_LENGTH + RECORD_VALUE_LENGTH;

/// Whole-lifetime cycle budget of an extension task; on exceedance the
/// task is pushed back to its client.
pub const CONTAINER_CYCLES_BUDGET: u64 = 1024;

/// Payload bytes a pre-allocated response packet can carry.
pub const RESPONSE_CAPACITY: usize = 1400;

/// Cycles one single-shot native task charges its scheduler.
pub const NATIVE_RUN_CYCLES: u64 = 1;

/// Type tag of a read-set record on the wire.
pub const READ_RECORD_TAG: u8 = 1;

/// Type tag of a write-set record on the wire.
pub const WRITE_RECORD_TAG: u8 = 2;

} // verus!
