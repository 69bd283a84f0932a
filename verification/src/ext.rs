use vstd::prelude::*;
use crate::util::bytes_eq;

verus! {

/// One primitive operation of an extension. A loaded extension is a
/// queue of these; a container task consumes one per cooperative slice,
/// so every operation boundary is a yield point.
pub enum ExtOp {
    /// Read a key of a table; a hit is appended to the read-set and,
    /// when `emit` is set, the value is appended to the response.
    Get { table: u64, key: Vec<u8>, emit: bool },
    /// Write a value under a key of a table; a successful write is
    /// appended to the write-set.
    Put { table: u64, key: Vec<u8>, value: Vec<u8> },
    /// Append fixed bytes to the response payload.
    Emit { data: Vec<u8> },
    /// Append the invocation's argument blob to the response payload.
    EmitArgs,
    /// Append the running sum of all value bytes read so far, as eight
    /// little-endian bytes.
    EmitSum,
    /// Spin for the given number of cycles without touching the store.
    Work { cycles: u64 },
}

/// The mathematical shape of one extension operation.
pub enum ExtOpView {
    Get { table: u64, key: Seq<u8>, emit: bool },
    Put { table: u64, key: Seq<u8>, value: Seq<u8> },
    Emit { data: Seq<u8> },
    EmitArgs,
    EmitSum,
    Work { cycles: u64 },
}

impl View for ExtOp {
    type V = ExtOpView;

    open spec fn view(&self) -> ExtOpView {
        match self {
            ExtOp::Get { table, key, emit } => ExtOpView::Get {
                table: *table,
                key: key@,
                emit: *emit,
            },
            ExtOp::Put { table, key, value } => ExtOpView::Put {
                table: *table,
                key: key@,
                value: value@,
            },
            ExtOp::Emit { data } => ExtOpView::Emit { data: data@ },
            ExtOp::EmitArgs => ExtOpView::EmitArgs,
            ExtOp::EmitSum => ExtOpView::EmitSum,
            ExtOp::Work { cycles } => ExtOpView::Work { cycles: *cycles },
        }
    }
}

/// Cycles one operation costs the task that runs it. Data-path
/// operations cost one cycle; a spin costs what it asks for, and every
/// slice costs at least one cycle, so a scheduler tick always makes
/// progress.
pub open spec fn op_cost(op: ExtOpView) -> u64 {
    match op {
        ExtOpView::Work { cycles } => if cycles == 0 {
            1
        } else {
            cycles
        },
        _ => 1,
    }
}

impl ExtOp {
    /// Cycles this operation costs the task that runs it.
    pub fn cost(&self) -> (c: u64)
        ensures
            c == op_cost(self@),
    {
        match self {
            ExtOp::Work { cycles } => if *cycles == 0 {
                1
            } else {
                *cycles
            },
            _ => 1,
        }
    }

    /// A copy of this operation.
    pub fn duplicate(&self) -> (r: ExtOp)
        ensures
            r@ == self@,
    {
        match self {
            ExtOp::Get { table, key, emit } => {
                let r = ExtOp::Get { table: *table, key: clone_bytes(key), emit: *emit };
                r
            },
            ExtOp::Put { table, key, value } => {
                let r = ExtOp::Put {
                    table: *table,
                    key: clone_bytes(key),
                    value: clone_bytes(value),
                };
                r
            },
            ExtOp::Emit { data } => ExtOp::Emit { data: clone_bytes(data) },
            ExtOp::EmitArgs => ExtOp::EmitArgs,
            ExtOp::EmitSum => ExtOp::EmitSum,
            ExtOp::Work { cycles } => ExtOp::Work { cycles: *cycles },
        }
    }
}

/// A copy of a byte vector.
pub fn clone_bytes(v: &Vec<u8>) -> (r: Vec<u8>)
    ensures
        r@ == v@,
{
    let r = v.clone();
    proof {
        assert(r@ =~= v@);
    }
    r
}

/// The sequence of operation views a program denotes.
pub open spec fn prog_view(s: Seq<ExtOp>) -> Seq<ExtOpView> {
    s.map(|i: int, op: ExtOp| op@)
}

/// An extension the loader has produced: an opaque callable the core
/// only steps, here a queue of primitive operations consumed one per
/// slice.
pub struct LoadedExtension {
    program: Vec<ExtOp>,
}

impl View for LoadedExtension {
    type V = Seq<ExtOpView>;

    closed spec fn view(&self) -> Seq<ExtOpView> {
        prog_view(self.program@)
    }
}

impl LoadedExtension {
    /// Wraps a program as a loaded extension.
    pub fn new(program: Vec<ExtOp>) -> (r: LoadedExtension)
        ensures
            r@ == prog_view(program@),
    {
        LoadedExtension { program }
    }

    /// Number of operations in the program.
    pub fn len(&self) -> (n: usize)
        ensures
            n == self@.len(),
    {
        self.program.len()
    }

    /// The operation at the given position.
    pub fn op_at(&self, i: usize) -> (r: &ExtOp)
        requires
            i < self@.len(),
        ensures
            r@ == self@[i as int],
    {
        &self.program[i]
    }

    /// A copy of this extension, as handing out another shared handle to
    /// it would produce.
    pub fn duplicate(&self) -> (r: LoadedExtension)
        ensures
            r@ == self@,
    {
        let n = self.program.len();
        let mut program: Vec<ExtOp> = Vec::new();
        let mut i: usize = 0;
        while i < n
            invariant
                n == self.program@.len(),
                0 <= i <= n,
                program@.len() == i,
                forall|j: int| 0 <= j < i ==> #[trigger] program@[j]@ == self.program@[j]@,
            decreases n - i,
        {
            program.push(self.program[i].duplicate());
            i += 1;
        }
        let r = LoadedExtension { program };
        proof {
            assert(r@ =~= self@);
        }
        r
    }
}

/// The key under which an extension-manager entry is filed: the owning
/// tenant and the extension's name.
pub open spec fn ext_key(e: (u64, Vec<u8>, LoadedExtension)) -> (u64, Seq<u8>) {
    (e.0, e.1@)
}

/// True when some entry is filed under tenant `t` and name `n`.
pub open spec fn ext_has(s: Seq<(u64, Vec<u8>, LoadedExtension)>, t: u64, n: Seq<u8>) -> bool {
    exists|i: int| 0 <= i < s.len() && #[trigger] ext_key(s[i]) == (t, n)
}

/// The index of the entry filed under `(t, n)`; meaningful only when the
/// keys are distinct and the entry is present.
pub open spec fn ext_index(s: Seq<(u64, Vec<u8>, LoadedExtension)>, t: u64, n: Seq<u8>) -> int {
    choose|i: int| 0 <= i < s.len() && #[trigger] ext_key(s[i]) == (t, n)
}

/// No two entries share a key.
pub open spec fn ext_distinct(s: Seq<(u64, Vec<u8>, LoadedExtension)>) -> bool {
    forall|i: int, j: int| 0 <= i < j < s.len()
        ==> #[trigger] ext_key(s[i]) != #[trigger] ext_key(s[j])
}

/// The map from (tenant, name) to program that the entries denote.
pub open spec fn ext_entries_view(s: Seq<(u64, Vec<u8>, LoadedExtension)>) -> Map<
    (u64, Seq<u8>),
    Seq<ExtOpView>,
> {
    Map::new(
        |k: (u64, Seq<u8>)| ext_has(s, k.0, k.1),
        |k: (u64, Seq<u8>)| s[ext_index(s, k.0, k.1)].2@,
    )
}

/// An entry known to sit at index `i` determines the denoted map at its
/// key.
proof fn lemma_ext_at(s: Seq<(u64, Vec<u8>, LoadedExtension)>, i: int)
    requires
        ext_distinct(s),
        0 <= i < s.len(),
    ensures
        ext_entries_view(s).contains_key(ext_key(s[i])),
        ext_entries_view(s)[ext_key(s[i])] == s[i].2@,
        ext_index(s, s[i].0, s[i].1@) == i,
{
    assert(ext_key(s[i]) == (s[i].0, s[i].1@));
    assert(ext_has(s, s[i].0, s[i].1@));
    let j = ext_index(s, s[i].0, s[i].1@);
    if i != j {
        assert(ext_key(s[i]) != ext_key(s[j]));
    }
}

/// Replacing the entry at `i`, key kept, updates the denoted map at that
/// key and nowhere else.
proof fn lemma_ext_update(s: Seq<(u64, Vec<u8>, LoadedExtension)>, i: int, e: (u64, Vec<u8>, LoadedExtension))
    requires
        ext_distinct(s),
        0 <= i < s.len(),
        ext_key(e) == ext_key(s[i]),
    ensures
        ext_distinct(s.update(i, e)),
        ext_entries_view(s.update(i, e)) == ext_entries_view(s).insert(ext_key(s[i]), e.2@),
{
    let t = s.update(i, e);
    assert forall|a: int, b: int| 0 <= a < b < t.len() implies #[trigger] ext_key(t[a])
        != #[trigger] ext_key(t[b]) by {
        assert(ext_key(t[a]) == ext_key(s[a]));
        assert(ext_key(t[b]) == ext_key(s[b]));
    }
    assert forall|k: (u64, Seq<u8>)| true implies ext_has(t, k.0, k.1) == ext_has(s, k.0, k.1) by {
        if ext_has(t, k.0, k.1) {
            let a = choose|a: int| 0 <= a < t.len() && #[trigger] ext_key(t[a]) == k;
            assert(ext_key(s[a]) == k);
        }
        if ext_has(s, k.0, k.1) {
            let a = choose|a: int| 0 <= a < s.len() && #[trigger] ext_key(s[a]) == k;
            assert(ext_key(t[a]) == k);
        }
    }
    assert forall|k: (u64, Seq<u8>)| ext_has(t, k.0, k.1) implies ext_entries_view(t)[k]
        == ext_entries_view(s).insert(ext_key(s[i]), e.2@)[k] by {
        let a = ext_index(t, k.0, k.1);
        assert(0 <= a < t.len() && ext_key(t[a]) == k);
        if k == ext_key(s[i]) {
            if a != i {
                assert(ext_key(t[a]) == ext_key(s[a]) && ext_key(t[i]) == ext_key(s[i]));
                assert(ext_key(s[a]) != ext_key(s[i]));
            }
            assert(a == i);
            assert(ext_entries_view(t)[k] == e.2@);
        } else {
            assert(a != i);
            assert(t[a] == s[a]);
            lemma_ext_at(s, a);
            assert(ext_entries_view(t)[k] == s[a].2@);
        }
    }
    assert(ext_entries_view(t) =~= ext_entries_view(s).insert(ext_key(s[i]), e.2@));
}

/// Appending an entry with a fresh key extends the denoted map by that
/// entry.
proof fn lemma_ext_push(s: Seq<(u64, Vec<u8>, LoadedExtension)>, e: (u64, Vec<u8>, LoadedExtension))
    requires
        ext_distinct(s),
        !ext_has(s, e.0, e.1@),
    ensures
        ext_distinct(s.push(e)),
        ext_entries_view(s.push(e)) == ext_entries_view(s).insert(ext_key(e), e.2@),
{
    let t = s.push(e);
    assert forall|a: int, b: int| 0 <= a < b < t.len() implies #[trigger] ext_key(t[a])
        != #[trigger] ext_key(t[b]) by {
        if b < s.len() {
            assert(t[a] == s[a] && t[b] == s[b]);
        } else {
            assert(t[a] == s[a] && t[b] == e);
            assert(ext_key(s[a]) != ext_key(e)) by {
                if ext_key(s[a]) == ext_key(e) {
                    assert(ext_has(s, e.0, e.1@));
                }
            }
        }
    }
    assert forall|k: (u64, Seq<u8>)| true implies ext_has(t, k.0, k.1) == (ext_has(s, k.0, k.1)
        || k == ext_key(e)) by {
        if ext_has(t, k.0, k.1) {
            let a = choose|a: int| 0 <= a < t.len() && #[trigger] ext_key(t[a]) == k;
            if a < s.len() {
                assert(ext_key(s[a]) == k);
            }
        }
        if ext_has(s, k.0, k.1) {
            let a = choose|a: int| 0 <= a < s.len() && #[trigger] ext_key(s[a]) == k;
            assert(ext_key(t[a]) == k);
        }
        if k == ext_key(e) {
            assert(ext_key(t[s.len() as int]) == k);
        }
    }
    assert forall|k: (u64, Seq<u8>)| ext_has(t, k.0, k.1) implies ext_entries_view(t)[k]
        == ext_entries_view(s).insert(ext_key(e), e.2@)[k] by {
        let a = ext_index(t, k.0, k.1);
        assert(0 <= a < t.len() && ext_key(t[a]) == k);
        if k == ext_key(e) {
            if a < s.len() {
                assert(ext_has(s, e.0, e.1@));
            }
            assert(a == s.len());
            assert(ext_entries_view(t)[k] == e.2@);
        } else {
            assert(a < s.len());
            assert(t[a] == s[a]);
            lemma_ext_at(s, a);
            assert(ext_entries_view(t)[k] == s[a].2@);
        }
    }
    assert(ext_entries_view(t) =~= ext_entries_view(s).insert(ext_key(e), e.2@));
}

/// Owner of every loaded extension. Filed per tenant, so the manager
/// also answers whether a tenant may invoke a name; `share` authorizes a
/// second tenant without a deep copy of anything but the handle.
pub struct ExtensionManager {
    entries: Vec<(u64, Vec<u8>, LoadedExtension)>,
}

impl View for ExtensionManager {
    type V = Map<(u64, Seq<u8>), Seq<ExtOpView>>;

    closed spec fn view(&self) -> Map<(u64, Seq<u8>), Seq<ExtOpView>> {
        ext_entries_view(self.entries@)
    }
}

impl ExtensionManager {
    /// Entry keys are distinct.
    pub closed spec fn wf(self) -> bool {
        ext_distinct(self.entries@)
    }

    /// Creates a manager owning no extensions.
    pub fn new() -> (r: ExtensionManager)
        ensures
            r.wf(),
            r@ == Map::<(u64, Seq<u8>), Seq<ExtOpView>>::empty(),
    {
        let r = ExtensionManager { entries: Vec::new() };
        proof {
            assert(r@ =~= Map::<(u64, Seq<u8>), Seq<ExtOpView>>::empty());
        }
        r
    }

    /// Files an extension under a tenant and name, replacing any
    /// extension already filed there.
    fn install(&mut self, tenant: u64, name: Vec<u8>, ext: LoadedExtension)
        requires
            old(self).wf(),
        ensures
            final(self).wf(),
            final(self)@ == old(self)@.insert((tenant, name@), ext@),
    {
        let ghost s0 = self.entries@;
        let n = self.entries.len();
        let mut i: usize = 0;
        while i < n
            invariant
                *self == *old(self),
                old(self).wf(),
                s0 == self.entries@,
                n == s0.len(),
                0 <= i <= n,
                forall|j: int| 0 <= j < i ==> #[trigger] ext_key(s0[j]) != (tenant, name@),
            decreases n - i,
        {
            if self.entries[i].0 == tenant && bytes_eq(self.entries[i].1.as_slice(), name.as_slice()) {
                self.entries[i].2 = ext;
                proof {
                    lemma_ext_update(s0, i as int, self.entries@[i as int]);
                    assert(self.entries@ =~= s0.update(i as int, self.entries@[i as int]));
                }
                return;
            }
            proof {
                if ext_key(s0[i as int]) == (tenant, name@) {
                    assert(s0[i as int].0 == tenant && s0[i as int].1@ == name@);
                }
            }
            i += 1;
        }
        self.entries.push((tenant, name, ext));
        proof {
            assert(!ext_has(s0, tenant, self.entries@[s0.len() as int].1@));
            lemma_ext_push(s0, self.entries@[s0.len() as int]);
        }
    }

    /// Loads an extension for a tenant under a name. The on-disk form is
    /// the loader's concern; the core receives the produced program.
    pub fn load(&mut self, tenant: u64, name: &[u8], program: Vec<ExtOp>) -> (r: bool)
        requires
            old(self).wf(),
        ensures
            r == true,
            final(self).wf(),
            final(self)@ == old(self)@.insert((tenant, name@), prog_view(program@)),
    {
        let mut owned_name: Vec<u8> = Vec::new();
        owned_name.extend_from_slice(name);
        proof {
            assert(owned_name@ =~= name@);
        }
        self.install(tenant, owned_name, LoadedExtension::new(program));
        true
    }

    /// Authorizes `to` for an extension `from` already owns, installing
    /// another handle to the same program under the new tenant.
    pub fn share(&mut self, from: u64, to: u64, name: &[u8]) -> (r: bool)
        requires
            old(self).wf(),
        ensures
            final(self).wf(),
            r <==> old(self)@.contains_key((from, name@)),
            r ==> final(self)@ == old(self)@.insert((to, name@), old(self)@[(from, name@)]),
            !r ==> *final(self) == *old(self),
    {
        let found = self.lookup(from, name);
        match found {
            Some(ext) => {
                let copy = ext.duplicate();
                let mut owned_name: Vec<u8> = Vec::new();
                owned_name.extend_from_slice(name);
                proof {
                    assert(owned_name@ =~= name@);
                }
                self.install(to, owned_name, copy);
                true
            },
            None => false,
        }
    }

    /// Hands out the extension filed under a tenant and name, if the
    /// tenant is authorized for one.
    pub fn get(&self, tenant: u64, name: &[u8]) -> (r: Option<&LoadedExtension>)
        requires
            self.wf(),
        ensures
            match r {
                Some(ext) => self@.contains_key((tenant, name@)) && ext@ == self@[(tenant, name@)],
                None => !self@.contains_key((tenant, name@)),
            },
    {
        self.lookup(tenant, name)
    }

    /// Scans the entries for a key.
    fn lookup(&self, tenant: u64, name: &[u8]) -> (r: Option<&LoadedExtension>)
        requires
            self.wf(),
        ensures
            match r {
                Some(ext) => self@.contains_key((tenant, name@)) && ext@ == self@[(tenant, name@)],
                None => !self@.contains_key((tenant, name@)),
            },
    {
        let n = self.entries.len();
        let mut i: usize = 0;
        while i < n
            invariant
                self.wf(),
                n == self.entries@.len(),
                0 <= i <= n,
                forall|j: int| 0 <= j < i ==> #[trigger] ext_key(self.entries@[j]) != (tenant, name@),
            decreases n - i,
        {
            if self.entries[i].0 == tenant && bytes_eq(self.entries[i].1.as_slice(), name) {
                proof {
                    lemma_ext_at(self.entries@, i as int);
                }
                return Some(&self.entries[i].2);
            }
            proof {
                if ext_key(self.entries@[i as int]) == (tenant, name@) {
                    assert(self.entries@[i as int].0 == tenant && self.entries@[i as int].1@
                        == name@);
                }
            }
            i += 1;
        }
        proof {
            assert(!ext_has(self.entries@, tenant, name@));
        }
        None
    }
}

} // verus!
