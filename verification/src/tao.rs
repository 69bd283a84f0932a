use vstd::prelude::*;
use crate::db::{DB, SandstormErr};
use crate::util::u64_to_le;

verus! {

/// An association-graph object identifier.
pub type Id = u64;

/// The type tag of an object.
pub type ObjectType = u16;

/// The type tag of an association between two objects.
pub type AssociationType = u16;

#[verifier::external_type_specification]
#[verifier::external_body]
/// The shared byte buffer the object payloads travel in.
pub struct ExBytes(bytes::Bytes);

/// The bytes a `bytes::Bytes` buffer holds.
pub uninterp spec fn bytes_seq(b: bytes::Bytes) -> Seq<u8>;

/// Relies on bytes::Bytes::copy_from_slice: the new buffer holds a
/// copy of the given bytes.
#[verifier::external_body]
pub fn bytes_from_slice(data: &[u8]) -> (r: bytes::Bytes)
    ensures
        bytes_seq(r) == data@,
{
    bytes::Bytes::copy_from_slice(data)
}

/// Relies on bytes::Bytes's AsRef<[u8]>: the slice viewed is the
/// buffer's contents, here copied out into an owned vector.
#[verifier::external_body]
pub fn bytes_to_vec(b: &bytes::Bytes) -> (r: Vec<u8>)
    ensures
        r@ == bytes_seq(*b),
{
    b.as_ref().to_vec()
}

/// An association-graph store over a data service: objects in one
/// table, associations between them in another.
pub struct Tao<D: DB> {
    client: D,
    object_table_id: u64,
    association_table_id: u64,
    next_id: Id,
}

/// The table objects are stored in.
pub const OBJECT_TABLE_ID: u64 = 0;

/// The table associations are stored in.
pub const ASSOCIATION_TABLE_ID: u64 = 1;

impl<D: DB> Tao<D> {
    /// The identifier the next created object receives.
    pub closed spec fn spec_next_id(self) -> Id {
        self.next_id
    }

    /// The table this store files objects under.
    pub closed spec fn spec_object_table(self) -> u64 {
        self.object_table_id
    }

    /// The table this store files associations under.
    pub closed spec fn spec_association_table(self) -> u64 {
        self.association_table_id
    }

    /// Builds a graph store over the given data service, creating its
    /// object and association tables there: objects under table zero,
    /// associations under table one.
    pub fn new(client: D) -> (r: Tao<D>)
        ensures
            r.spec_next_id() == 0,
            r.spec_object_table() == OBJECT_TABLE_ID,
            r.spec_association_table() == ASSOCIATION_TABLE_ID,
    {
        let mut client = client;
        client.create_table(OBJECT_TABLE_ID);
        client.create_table(ASSOCIATION_TABLE_ID);
        Tao {
            client,
            object_table_id: OBJECT_TABLE_ID,
            association_table_id: ASSOCIATION_TABLE_ID,
            next_id: 0,
        }
    }

    /// Creates an object with the given payload and returns its fresh
    /// identifier.
    pub fn object_add(&mut self, object_type: ObjectType, data: bytes::Bytes) -> (r: Id)
        ensures
            r == old(self).spec_next_id(),
            final(self).spec_next_id() == crate::interp::wrap_add_byte(
                old(self).spec_next_id(),
                1,
            ),
            final(self).spec_object_table() == old(self).spec_object_table(),
            final(self).spec_association_table() == old(self).spec_association_table(),
    {
        let object_id = self.allocate_unique_id();
        let key = object_key(object_id, object_type);
        let value = bytes_to_vec(&data);
        let _err: SandstormErr = self.client.put_key(self.object_table_id, &key, &value);
        object_id
    }

    /// Replaces an object's payload.
    pub fn object_update(&mut self, id: Id, data: bytes::Bytes) {
        let key = object_key(id, 0);
        let value = bytes_to_vec(&data);
        let _err = self.client.put_key(self.object_table_id, &key, &value);
    }

    /// Removes an object.
    pub fn object_delete(&mut self, id: Id) {
        let key = object_key(id, 0);
        self.client.delete_key(self.object_table_id, &key);
    }

    /// Reads an object's payload into the given buffer and returns its
    /// type tag; a missing object leaves the buffer alone.
    pub fn object_get(&self, id: Id, data: &mut bytes::Bytes) -> (r: ObjectType) {
        let key = object_key(id, 0);
        match self.client.get_key(self.object_table_id, &key) {
            Ok(value) => {
                *data = bytes_from_slice(value.as_slice());
                0
            },
            Err(_) => 0,
        }
    }

    /// Records an association of the given type between two objects.
    pub fn assocation_add(&mut self, id1: Id, association_type: AssociationType, id2: Id) {
        let key = association_key(id1, id2);
        let tag: u64 = association_type as u64;
        let value = u64_to_le(tag);
        let _err = self.client.put_key(self.association_table_id, &key, &value);
    }

    /// Removes the association between two objects.
    pub fn association_delete(&mut self, id1: Id, id2: Id) {
        let key = association_key(id1, id2);
        self.client.delete_key(self.association_table_id, &key);
    }

    /// Reads the association record between two objects, if one is
    /// stored.
    pub fn assocation_get(&self, id1: Id, id2: Id) -> (r: Option<Vec<u8>>) {
        let key = association_key(id1, id2);
        match self.client.get_key(self.association_table_id, &key) {
            Ok(value) => Some(value),
            Err(_) => None,
        }
    }

    /// Draws a fresh object identifier; identifiers count up from
    /// zero, wrapping only after the full 64-bit space.
    pub fn allocate_unique_id(&mut self) -> (r: Id)
        ensures
            r == old(self).spec_next_id(),
            final(self).spec_next_id() == crate::interp::wrap_add_byte(
                old(self).spec_next_id(),
                1,
            ),
            final(self).spec_object_table() == old(self).spec_object_table(),
            final(self).spec_association_table() == old(self).spec_association_table(),
    {
        let id = self.next_id;
        self.next_id = self.next_id.wrapping_add(1);
        id
    }

    /// Starts object numbering over.
    pub fn reset(&mut self)
        ensures
            final(self).spec_next_id() == 0,
    {
        self.next_id = 0;
    }
}

/// The table key an object is filed under: its identifier, then its
/// type tag, all little-endian.
fn object_key(id: Id, object_type: ObjectType) -> (r: Vec<u8>)
    ensures
        r@ == crate::util::u64_le_seq(id) + seq![
            (object_type & 0xff) as u8,
            ((object_type >> 8) & 0xff) as u8,
        ],
{
    let mut key = u64_to_le(id);
    key.push((object_type & 0xff) as u8);
    key.push(((object_type >> 8) & 0xff) as u8);
    proof {
        assert(key@ =~= crate::util::u64_le_seq(id) + seq![
            (object_type & 0xff) as u8,
            ((object_type >> 8) & 0xff) as u8,
        ]);
    }
    key
}

/// The table key an association is filed under: both identifiers,
/// little-endian.
fn association_key(id1: Id, id2: Id) -> (r: Vec<u8>)
    ensures
        r@ == crate::util::u64_le_seq(id1) + crate::util::u64_le_seq(id2),
{
    let mut key = u64_to_le(id1);
    let tail = u64_to_le(id2);
    crate::util::append_bytes(&mut key, tail.as_slice());
    key
}

/// Announces the store to the data service's diagnostic log, as the
/// loader calls it once the extension is mounted.
pub fn init<D: DB>(db: &mut D) {
    db.debug_log("TAO Initialized");
}

} // verus!
