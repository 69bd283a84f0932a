use vstd::prelude::*;
use crate::ext::clone_bytes;

verus! {

/// A handle to one allocated object record holding a key and a value.
/// The handle views as the value bytes; the key is reachable through
/// `resolve`.
pub struct ObjectRef {
    key: Vec<u8>,
    value: Vec<u8>,
}

impl View for ObjectRef {
    type V = Seq<u8>;

    closed spec fn view(&self) -> Seq<u8> {
        self.value@
    }
}

impl ObjectRef {
    /// The key bytes the record was allocated with.
    pub closed spec fn spec_key(self) -> Seq<u8> {
        self.key@
    }
}

/// A value region under construction: the caller fills it, then freezes
/// it into an object installable in a table.
pub struct WriteBuf {
    table_id: u64,
    key: Vec<u8>,
    data: Vec<u8>,
}

impl WriteBuf {
    /// The table this buffer was allocated for.
    pub closed spec fn spec_table(self) -> u64 {
        self.table_id
    }

    /// The key this buffer was allocated for.
    pub closed spec fn spec_key(self) -> Seq<u8> {
        self.key@
    }

    /// The value bytes written so far.
    pub closed spec fn spec_data(self) -> Seq<u8> {
        self.data@
    }

    /// Overwrites the buffer's contents.
    pub fn fill(&mut self, data: &[u8])
        ensures
            final(self).spec_table() == old(self).spec_table(),
            final(self).spec_key() == old(self).spec_key(),
            final(self).spec_data() == data@,
    {
        let mut fresh: Vec<u8> = Vec::new();
        fresh.extend_from_slice(data);
        proof {
            assert(fresh@ =~= data@);
        }
        self.data = fresh;
    }
}

/// Manager of the table heap. Allocates object records and resolves
/// handles back to their key and value bytes; the storage behind a
/// handle lives as long as the handle.
pub struct Allocator {}

impl Allocator {
    /// Creates an allocator.
    pub fn new() -> (r: Allocator) {
        Allocator {  }
    }

    /// Allocates a record holding both key and value; returns the key
    /// bytes to file the record under, and the handle.
    pub fn object(&self, _tenant: u64, _table: u64, key: &[u8], value: &[u8]) -> (r: Option<
        (Vec<u8>, ObjectRef),
    >)
        ensures
            match r {
                Some(p) => p.0@ == key@ && p.1.spec_key() == key@ && p.1@ == value@,
                None => false,
            },
    {
        let mut k1: Vec<u8> = Vec::new();
        k1.extend_from_slice(key);
        let mut k2: Vec<u8> = Vec::new();
        k2.extend_from_slice(key);
        let mut v: Vec<u8> = Vec::new();
        v.extend_from_slice(value);
        proof {
            assert(k1@ =~= key@);
            assert(k2@ =~= key@);
            assert(v@ =~= value@);
        }
        Some((k1, ObjectRef { key: k2, value: v }))
    }

    /// Allocates an uninitialized (zeroed) value region of the given
    /// length for a key of a table; the caller fills it and then calls
    /// `freeze`.
    pub fn raw(&self, _tenant: u64, table: u64, key: &[u8], val_len: usize) -> (r: Option<WriteBuf>)
        ensures
            match r {
                Some(b) => {
                    &&& b.spec_table() == table
                    &&& b.spec_key() == key@
                    &&& b.spec_data() == Seq::<u8>::new(val_len as nat, |i: int| 0u8)
                },
                None => false,
            },
    {
        let mut k: Vec<u8> = Vec::new();
        k.extend_from_slice(key);
        let mut data: Vec<u8> = Vec::new();
        let mut i: usize = 0;
        while i < val_len
            invariant
                0 <= i <= val_len,
                data@ =~= Seq::<u8>::new(i as nat, |j: int| 0u8),
            decreases val_len - i,
        {
            data.push(0);
            proof {
                assert(data@ =~= Seq::<u8>::new((i + 1) as nat, |j: int| 0u8));
            }
            i += 1;
        }
        proof {
            assert(k@ =~= key@);
        }
        Some(WriteBuf { table_id: table, key: k, data })
    }

    /// Turns a filled buffer into an installable object record.
    pub fn freeze(&self, buf: WriteBuf) -> (r: (u64, ObjectRef))
        ensures
            r.0 == buf.spec_table(),
            r.1.spec_key() == buf.spec_key(),
            r.1@ == buf.spec_data(),
    {
        let WriteBuf { table_id, key, data } = buf;
        (table_id, ObjectRef { key, value: data })
    }

    /// Views the key and value bytes a handle stands for.
    pub fn resolve<'a>(&self, obj: &'a ObjectRef) -> (r: Option<(&'a Vec<u8>, &'a Vec<u8>)>)
        ensures
            match r {
                Some(p) => p.0@ == obj.spec_key() && p.1@ == obj@,
                None => false,
            },
    {
        Some((&obj.key, &obj.value))
    }

    /// A second handle to the same record.
    pub fn duplicate_handle(&self, obj: &ObjectRef) -> (r: ObjectRef)
        ensures
            r.spec_key() == obj.spec_key(),
            r@ == obj@,
    {
        ObjectRef { key: clone_bytes(&obj.key), value: clone_bytes(&obj.value) }
    }
}

} // verus!
