use vstd::prelude::*;
use crate::heap::ObjectRef;
use crate::util::bytes_eq;

verus! {

/// True when some entry of `s` carries the key `k`.
pub open spec fn entries_have_key(s: Seq<(Vec<u8>, ObjectRef)>, k: Seq<u8>) -> bool {
    exists|i: int| 0 <= i < s.len() && #[trigger] s[i].0@ == k
}

/// The index of the entry carrying `k`; meaningful only when the keys of
/// `s` are distinct and `k` is present.
pub open spec fn entries_key_index(s: Seq<(Vec<u8>, ObjectRef)>, k: Seq<u8>) -> int {
    choose|i: int| 0 <= i < s.len() && #[trigger] s[i].0@ == k
}

/// The key-to-value map that a sequence of entries denotes.
pub open spec fn entries_view(s: Seq<(Vec<u8>, ObjectRef)>) -> Map<Seq<u8>, Seq<u8>> {
    Map::new(
        |k: Seq<u8>| entries_have_key(s, k),
        |k: Seq<u8>| s[entries_key_index(s, k)].1@,
    )
}

/// No two entries carry the same key.
pub open spec fn entries_distinct(s: Seq<(Vec<u8>, ObjectRef)>) -> bool {
    forall|i: int, j: int| 0 <= i < j < s.len() ==> #[trigger] s[i].0@ != #[trigger] s[j].0@
}

/// An entry known to sit at index `i` determines the view at its key.
proof fn lemma_entry_at(s: Seq<(Vec<u8>, ObjectRef)>, i: int)
    requires
        entries_distinct(s),
        0 <= i < s.len(),
    ensures
        entries_view(s).contains_key(s[i].0@),
        entries_view(s)[s[i].0@] == s[i].1@,
{
    assert(entries_have_key(s, s[i].0@));
    let j = entries_key_index(s, s[i].0@);
    if i != j {
        assert(s[i].0@ != s[j].0@);
    }
}

/// A table: one tenant-scoped mapping from key bytes to value bytes.
/// A get observes the most recent put of the same key.
pub struct Table {
    /// Identifier the tenant filed this table under.
    id: u64,
    /// The entries; the well-formedness invariant keeps their keys
    /// distinct, so the map they denote is unambiguous.
    entries: Vec<(Vec<u8>, ObjectRef)>,
}

impl View for Table {
    type V = Map<Seq<u8>, Seq<u8>>;

    closed spec fn view(&self) -> Map<Seq<u8>, Seq<u8>> {
        entries_view(self.entries@)
    }
}

impl Table {
    /// The keys of the entries are distinct.
    pub closed spec fn wf(self) -> bool {
        entries_distinct(self.entries@)
    }

    /// The identifier this table was created under.
    pub closed spec fn spec_id(self) -> u64 {
        self.id
    }

    /// The identifier this table was created under.
    pub fn id(&self) -> (r: u64)
        ensures
            r == self.spec_id(),
    {
        self.id
    }

    /// Creates an empty table.
    pub fn new(id: u64) -> (r: Table)
        ensures
            r.wf(),
            r.spec_id() == id,
            r@ == Map::<Seq<u8>, Seq<u8>>::empty(),
    {
        let r = Table { id, entries: Vec::new() };
        proof {
            assert(r@ =~= Map::<Seq<u8>, Seq<u8>>::empty());
        }
        r
    }

    /// Looks a key up; returns the value installed by the most recent
    /// put of that key, if any.
    pub fn get(&self, key: &[u8]) -> (r: Option<&ObjectRef>)
        requires
            self.wf(),
        ensures
            match r {
                Some(v) => self@.contains_key(key@) && v@ == self@[key@],
                None => !self@.contains_key(key@),
            },
    {
        let n = self.entries.len();
        let mut i: usize = 0;
        while i < n
            invariant
                self.wf(),
                n == self.entries@.len(),
                0 <= i <= n,
                forall|j: int| 0 <= j < i ==> #[trigger] self.entries@[j].0@ != key@,
            decreases n - i,
        {
            if bytes_eq(self.entries[i].0.as_slice(), key) {
                proof {
                    lemma_entry_at(self.entries@, i as int);
                }
                return Some(&self.entries[i].1);
            }
            i += 1;
        }
        proof {
            assert(!entries_have_key(self.entries@, key@));
        }
        None
    }

    /// Installs a value under a key, atomically replacing any value a
    /// previous put installed there.
    pub fn put(&mut self, key: Vec<u8>, obj: ObjectRef)
        requires
            old(self).wf(),
        ensures
            final(self).wf(),
            final(self).spec_id() == old(self).spec_id(),
            final(self)@ == old(self)@.insert(key@, obj@),
    {
        let ghost s0 = self.entries@;
        let n = self.entries.len();
        let mut i: usize = 0;
        while i < n
            invariant
                entries_distinct(s0),
                *self == *old(self),
                self.entries@ == s0,
                n == s0.len(),
                0 <= i <= n,
                forall|j: int| 0 <= j < i ==> #[trigger] s0[j].0@ != key@,
            decreases n - i,
        {
            if bytes_eq(self.entries[i].0.as_slice(), key.as_slice()) {
                self.entries[i].1 = obj;
                proof {
                    lemma_update_at(s0, i as int, self.entries@[i as int]);
                    assert(self.entries@ =~= s0.update(i as int, self.entries@[i as int]));
                }
                return;
            }
            i += 1;
        }
        self.entries.push((key, obj));
        proof {
            lemma_push_new(s0, self.entries@[s0.len() as int]);
        }
    }
}

/// Replacing the value of the entry at `i` updates the denoted map at
/// that entry's key and nowhere else.
proof fn lemma_update_at(s: Seq<(Vec<u8>, ObjectRef)>, i: int, e: (Vec<u8>, ObjectRef))
    requires
        entries_distinct(s),
        0 <= i < s.len(),
        e.0@ == s[i].0@,
    ensures
        entries_distinct(s.update(i, e)),
        entries_view(s.update(i, e)) == entries_view(s).insert(s[i].0@, e.1@),
{
    let t = s.update(i, e);
    assert forall|a: int, b: int| 0 <= a < b < t.len() implies #[trigger] t[a].0@ != #[trigger] t[b].0@ by {
        assert(t[a].0@ == s[a].0@);
        assert(t[b].0@ == s[b].0@);
    }
    assert forall|k: Seq<u8>| true implies entries_have_key(t, k) == entries_have_key(s, k) by {
        if entries_have_key(t, k) {
            let a = choose|a: int| 0 <= a < t.len() && #[trigger] t[a].0@ == k;
            assert(s[a].0@ == k);
        }
        if entries_have_key(s, k) {
            let a = choose|a: int| 0 <= a < s.len() && #[trigger] s[a].0@ == k;
            assert(t[a].0@ == k);
        }
    }
    assert forall|k: Seq<u8>| entries_have_key(t, k) implies entries_view(t)[k]
        == entries_view(s).insert(s[i].0@, e.1@)[k] by {
        let a = entries_key_index(t, k);
        assert(0 <= a < t.len() && t[a].0@ == k);
        if k == s[i].0@ {
            if a != i {
                assert(t[a].0@ == s[a].0@ && t[i].0@ == s[i].0@);
                assert(s[a].0@ != s[i].0@);
            }
            assert(a == i);
            assert(entries_view(t)[k] == e.1@);
        } else {
            assert(a != i);
            assert(t[a] == s[a]);
            lemma_entry_at(s, a);
            assert(entries_view(t)[k] == s[a].1@);
        }
    }
    assert(entries_view(t) =~= entries_view(s).insert(s[i].0@, e.1@));
}

/// Appending an entry with a fresh key extends the denoted map by that
/// entry.
proof fn lemma_push_new(s: Seq<(Vec<u8>, ObjectRef)>, e: (Vec<u8>, ObjectRef))
    requires
        entries_distinct(s),
        !entries_have_key(s, e.0@),
    ensures
        entries_distinct(s.push(e)),
        entries_view(s.push(e)) == entries_view(s).insert(e.0@, e.1@),
{
    let t = s.push(e);
    assert forall|a: int, b: int| 0 <= a < b < t.len() implies #[trigger] t[a].0@ != #[trigger] t[b].0@ by {
        if b < s.len() {
            assert(t[a] == s[a] && t[b] == s[b]);
        } else {
            assert(t[a] == s[a] && t[b] == e);
            assert(s[a].0@ != e.0@) by {
                if s[a].0@ == e.0@ {
                    assert(entries_have_key(s, e.0@));
                }
            }
        }
    }
    assert forall|k: Seq<u8>| true implies entries_have_key(t, k) == (entries_have_key(s, k)
        || k == e.0@) by {
        if entries_have_key(t, k) {
            let a = choose|a: int| 0 <= a < t.len() && #[trigger] t[a].0@ == k;
            if a < s.len() {
                assert(s[a].0@ == k);
            }
        }
        if entries_have_key(s, k) {
            let a = choose|a: int| 0 <= a < s.len() && #[trigger] s[a].0@ == k;
            assert(t[a].0@ == k);
        }
        if k == e.0@ {
            assert(t[s.len() as int].0@ == k);
        }
    }
    assert forall|k: Seq<u8>| entries_have_key(t, k) implies entries_view(t)[k]
        == entries_view(s).insert(e.0@, e.1@)[k] by {
        let a = entries_key_index(t, k);
        assert(0 <= a < t.len() && t[a].0@ == k);
        if k == e.0@ {
            if a < s.len() {
                assert(entries_have_key(s, e.0@));
            }
            assert(a == s.len());
            assert(entries_view(t)[k] == e.1@);
        } else {
            assert(a < s.len());
            assert(t[a] == s[a]);
            lemma_entry_at(s, a);
            assert(entries_view(t)[k] == s[a].1@);
        }
    }
    assert(entries_view(t) =~= entries_view(s).insert(e.0@, e.1@));
}

} // verus!
