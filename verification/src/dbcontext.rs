use vstd::prelude::*;
use crate::assoc::{assoc_distinct, assoc_has, assoc_view, lemma_assoc_at, lemma_assoc_push,
    lemma_assoc_remove, lemma_assoc_update};
use crate::table::Table;

verus! {

#[allow(non_camel_case_types)]
/// A catalog of tables, filed by identifier: the stand-alone form of
/// the data service a single context works against.
pub struct dbcontext {
    catalog: Vec<(u64, Table)>,
}

impl View for dbcontext {
    type V = Map<u64, Map<Seq<u8>, Seq<u8>>>;

    closed spec fn view(&self) -> Map<u64, Map<Seq<u8>, Seq<u8>>> {
        assoc_view(self.catalog@)
    }
}

impl dbcontext {
    /// Identifiers are distinct and every table is well formed and
    /// filed under its own identifier.
    pub closed spec fn wf(self) -> bool {
        &&& assoc_distinct(self.catalog@)
        &&& forall|i: int| 0 <= i < self.catalog@.len()
            ==> (#[trigger] self.catalog@[i].1).wf() && self.catalog@[i].1.spec_id()
                == self.catalog@[i].0
    }

    /// Creates an empty catalog.
    pub fn new() -> (r: dbcontext)
        ensures
            r.wf(),
            r@ == Map::<u64, Map<Seq<u8>, Seq<u8>>>::empty(),
    {
        let r = dbcontext { catalog: Vec::new() };
        proof {
            assert(r@ =~= Map::<u64, Map<Seq<u8>, Seq<u8>>>::empty());
        }
        r
    }

    /// Hands out the table filed under an identifier, if any.
    pub fn get(&self, id: u64) -> (r: Option<&Table>)
        requires
            self.wf(),
        ensures
            match r {
                Some(t) => {
                    &&& self@.contains_key(id)
                    &&& t.wf()
                    &&& t.spec_id() == id
                    &&& t@ == self@[id]
                },
                None => !self@.contains_key(id),
            },
    {
        let n = self.catalog.len();
        let mut i: usize = 0;
        while i < n
            invariant
                self.wf(),
                n == self.catalog@.len(),
                0 <= i <= n,
                forall|j: int| 0 <= j < i ==> #[trigger] self.catalog@[j].0 != id,
            decreases n - i,
        {
            if self.catalog[i].0 == id {
                proof {
                    lemma_assoc_at(self.catalog@, i as int);
                }
                return Some(&self.catalog[i].1);
            }
            i += 1;
        }
        proof {
            assert(!assoc_has(self.catalog@, id));
        }
        None
    }

    /// Takes the table filed under an identifier out of the catalog
    /// for mutation; the caller works on it and files it back with
    /// `put_table`.
    pub fn get_mut(&mut self, id: u64) -> (r: Option<Table>)
        requires
            old(self).wf(),
        ensures
            final(self).wf(),
            match r {
                Some(t) => {
                    &&& old(self)@.contains_key(id)
                    &&& t.wf()
                    &&& t.spec_id() == id
                    &&& t@ == old(self)@[id]
                    &&& final(self)@ == old(self)@.remove(id)
                },
                None => !old(self)@.contains_key(id) && *final(self) == *old(self),
            },
    {
        let ghost s0 = self.catalog@;
        let n = self.catalog.len();
        let mut i: usize = 0;
        while i < n
            invariant
                *self == *old(self),
                old(self).wf(),
                s0 == self.catalog@,
                n == s0.len(),
                0 <= i <= n,
                forall|j: int| 0 <= j < i ==> #[trigger] s0[j].0 != id,
            decreases n - i,
        {
            if self.catalog[i].0 == id {
                proof {
                    lemma_assoc_at(s0, i as int);
                    lemma_assoc_remove(s0, i as int);
                }
                let entry = self.catalog.remove(i);
                return Some(entry.1);
            }
            i += 1;
        }
        proof {
            assert(!assoc_has(s0, id));
        }
        None
    }

    /// Files a table under its own identifier, replacing any table
    /// already there.
    pub fn put_table(&mut self, tbl: Table)
        requires
            old(self).wf(),
            tbl.wf(),
        ensures
            final(self).wf(),
            final(self)@ == old(self)@.insert(tbl.spec_id(), tbl@),
    {
        let ghost s0 = self.catalog@;
        let id = tbl.id();
        let n = self.catalog.len();
        let mut i: usize = 0;
        while i < n
            invariant
                *self == *old(self),
                old(self).wf(),
                s0 == self.catalog@,
                n == s0.len(),
                0 <= i <= n,
                tbl.wf(),
                id == tbl.spec_id(),
                forall|j: int| 0 <= j < i ==> #[trigger] s0[j].0 != id,
            decreases n - i,
        {
            if self.catalog[i].0 == id {
                self.catalog[i].1 = tbl;
                proof {
                    lemma_assoc_update(s0, i as int, self.catalog@[i as int]);
                    assert(self.catalog@ =~= s0.update(i as int, self.catalog@[i as int]));
                }
                return;
            }
            i += 1;
        }
        self.catalog.push((id, tbl));
        proof {
            lemma_assoc_push(s0, self.catalog@[s0.len() as int]);
        }
    }
}

} // verus!
