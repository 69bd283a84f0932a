use vstd::prelude::*;
use crate::heap::ObjectRef;
use crate::table::Table;
use crate::assoc::{assoc_distinct, assoc_has, assoc_view, lemma_assoc_at, lemma_assoc_push,
    lemma_assoc_update};

verus! {

/// A tenant: the isolation unit of the store. A tenant owns a set of
/// tables, each a key-to-value map, and is the subject every RPC names.
pub struct Tenant {
    /// This tenant's identifier.
    id: u64,
    /// The tables, filed by table identifier; the well-formedness
    /// invariant keeps the identifiers distinct.
    tables: Vec<(u64, Table)>,
}

impl View for Tenant {
    type V = Map<u64, Map<Seq<u8>, Seq<u8>>>;

    closed spec fn view(&self) -> Map<u64, Map<Seq<u8>, Seq<u8>>> {
        assoc_view(self.tables@)
    }
}

impl Tenant {
    /// Table identifiers are distinct and each table is well formed and
    /// filed under its own identifier.
    pub closed spec fn wf(self) -> bool {
        &&& assoc_distinct(self.tables@)
        &&& forall|i: int| 0 <= i < self.tables@.len()
            ==> (#[trigger] self.tables@[i].1).wf() && self.tables@[i].1.spec_id()
                == self.tables@[i].0
    }

    /// This tenant's identifier.
    pub closed spec fn spec_id(self) -> u64 {
        self.id
    }

    /// Creates a tenant owning no tables yet.
    pub fn new(id: u64) -> (r: Tenant)
        ensures
            r.wf(),
            r.spec_id() == id,
            r@ == Map::<u64, Map<Seq<u8>, Seq<u8>>>::empty(),
    {
        let r = Tenant { id, tables: Vec::new() };
        proof {
            assert(r@ =~= Map::<u64, Map<Seq<u8>, Seq<u8>>>::empty());
        }
        r
    }

    /// This tenant's identifier.
    pub fn id(&self) -> (r: u64)
        ensures
            r == self.spec_id(),
    {
        self.id
    }

    /// Adds an empty table under the given identifier, replacing any
    /// table already filed there.
    pub fn create_table(&mut self, table_id: u64)
        requires
            old(self).wf(),
        ensures
            final(self).wf(),
            final(self).spec_id() == old(self).spec_id(),
            final(self)@ == old(self)@.insert(table_id, Map::<Seq<u8>, Seq<u8>>::empty()),
    {
        let ghost s0 = self.tables@;
        let fresh = Table::new(table_id);
        let n = self.tables.len();
        let mut i: usize = 0;
        while i < n
            invariant
                *self == *old(self),
                old(self).wf(),
                s0 == self.tables@,
                n == s0.len(),
                0 <= i <= n,
                fresh.wf() && fresh.spec_id() == table_id && fresh@ == Map::<Seq<u8>, Seq<u8>>::empty(),
                forall|j: int| 0 <= j < i ==> #[trigger] s0[j].0 != table_id,
            decreases n - i,
        {
            if self.tables[i].0 == table_id {
                self.tables[i].1 = fresh;
                proof {
                    lemma_assoc_update(s0, i as int, self.tables@[i as int]);
                    assert(self.tables@ =~= s0.update(i as int, self.tables@[i as int]));
                }
                return;
            }
            i += 1;
        }
        self.tables.push((table_id, fresh));
        proof {
            lemma_assoc_push(s0, self.tables@[s0.len() as int]);
        }
    }

    /// Hands out the table filed under the given identifier, if any.
    pub fn get_table(&self, table_id: u64) -> (r: Option<&Table>)
        requires
            self.wf(),
        ensures
            match r {
                Some(t) => {
                    &&& self@.contains_key(table_id)
                    &&& t.wf()
                    &&& t.spec_id() == table_id
                    &&& t@ == self@[table_id]
                },
                None => !self@.contains_key(table_id),
            },
    {
        let n = self.tables.len();
        let mut i: usize = 0;
        while i < n
            invariant
                self.wf(),
                n == self.tables@.len(),
                0 <= i <= n,
                forall|j: int| 0 <= j < i ==> #[trigger] self.tables@[j].0 != table_id,
            decreases n - i,
        {
            if self.tables[i].0 == table_id {
                proof {
                    lemma_assoc_at(self.tables@, i as int);
                }
                return Some(&self.tables[i].1);
            }
            i += 1;
        }
        proof {
            assert(!assoc_has(self.tables@, table_id));
        }
        None
    }

    /// Installs a value under a key of the named table. Fails, changing
    /// nothing, when the tenant owns no such table.
    pub fn put_object(&mut self, table_id: u64, key: Vec<u8>, obj: ObjectRef) -> (ok: bool)
        requires
            old(self).wf(),
        ensures
            final(self).wf(),
            final(self).spec_id() == old(self).spec_id(),
            ok <==> old(self)@.contains_key(table_id),
            ok ==> final(self)@ == old(self)@.insert(
                table_id,
                old(self)@[table_id].insert(key@, obj@),
            ),
            !ok ==> *final(self) == *old(self),
    {
        let ghost s0 = self.tables@;
        let n = self.tables.len();
        let mut i: usize = 0;
        while i < n
            invariant
                *self == *old(self),
                old(self).wf(),
                s0 == self.tables@,
                n == s0.len(),
                0 <= i <= n,
                forall|j: int| 0 <= j < i ==> #[trigger] s0[j].0 != table_id,
            decreases n - i,
        {
            if self.tables[i].0 == table_id {
                proof {
                    lemma_assoc_at(s0, i as int);
                }
                self.tables[i].1.put(key, obj);
                proof {
                    lemma_assoc_update(s0, i as int, self.tables@[i as int]);
                    assert(self.tables@ =~= s0.update(i as int, self.tables@[i as int]));
                }
                return true;
            }
            i += 1;
        }
        proof {
            assert(!assoc_has(s0, table_id));
        }
        false
    }
}

} // verus!
