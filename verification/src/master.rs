use vstd::prelude::*;
use crate::assoc::{assoc_distinct, assoc_has, assoc_view, lemma_assoc_at, lemma_assoc_push,
    lemma_assoc_update};
use crate::common::{CONTAINER_CYCLES_BUDGET, TENANT_BUCKETS};
use crate::container::ContainerTask;
use crate::native::NativeTask;
use crate::task::{Task, TaskPriority};
use crate::ext::{ExtOp, ExtOpView, ExtensionManager, LoadedExtension, prog_view};
use crate::heap::{Allocator, ObjectRef};
use crate::tenant::Tenant;
use crate::util::{splice, sub_vec, u32_le_seq, u32_to_le};
use crate::wireformat::{OPCODE_GET, OPCODE_INVOKE, OPCODE_PUT, OpCode, Request, Response,
    RpcStatus};

verus! {

/// The registry bucket a tenant identifier hashes to: its low byte
/// masked down to the bucket count.
pub open spec fn bucket_of(id: u64) -> int {
    (id % (TENANT_BUCKETS as u64)) as int
}

/// The tenant map a sharded registry denotes.
pub open spec fn reg_view(s: Seq<Vec<(u64, Tenant)>>) -> Map<u64, Map<u64, Map<Seq<u8>, Seq<u8>>>> {
    Map::new(
        |id: u64| 0 <= bucket_of(id) < s.len() && assoc_has(s[bucket_of(id)]@, id),
        |id: u64| assoc_view(s[bucket_of(id)]@)[id],
    )
}

/// The tables of one tenant of a tenant map; an unknown tenant owns no
/// tables.
pub open spec fn tables_of(m: Map<u64, Map<u64, Map<Seq<u8>, Seq<u8>>>>, id: u64) -> Map<
    u64,
    Map<Seq<u8>, Seq<u8>>,
> {
    if m.contains_key(id) {
        m[id]
    } else {
        Map::empty()
    }
}

/// Replacing one bucket with a version whose denoted map gained `id`
/// inserts `id` into the registry's denoted map, when `id` hashes to
/// that bucket.
proof fn lemma_reg_update(
    s: Seq<Vec<(u64, Tenant)>>,
    b: int,
    nb: Vec<(u64, Tenant)>,
    id: u64,
    tv: Map<u64, Map<Seq<u8>, Seq<u8>>>,
)
    requires
        0 <= b < s.len(),
        bucket_of(id) == b,
        assoc_view(nb@) == assoc_view(s[b]@).insert(id, tv),
    ensures
        reg_view(s.update(b, nb)) == reg_view(s).insert(id, tv),
{
    let t = s.update(b, nb);
    assert forall|x: u64| true implies #[trigger] reg_view(t).contains_key(x) == reg_view(
        s,
    ).insert(id, tv).contains_key(x) by {
        if bucket_of(x) == b {
            assert(assoc_has(nb@, x) == assoc_view(nb@).contains_key(x));
            assert(assoc_view(nb@).contains_key(x) == (assoc_view(s[b]@).contains_key(x) || x
                == id));
            assert(assoc_view(s[b]@).contains_key(x) == assoc_has(s[b]@, x));
        } else {
            if 0 <= bucket_of(x) < s.len() {
                assert(t[bucket_of(x)] == s[bucket_of(x)]);
            }
        }
    }
    assert forall|x: u64| reg_view(t).contains_key(x) implies reg_view(t)[x] == reg_view(s).insert(
        id,
        tv,
    )[x] by {
        if bucket_of(x) == b {
            assert(reg_view(t)[x] == assoc_view(nb@)[x]);
            assert(assoc_view(nb@)[x] == assoc_view(s[b]@).insert(id, tv)[x]);
        } else {
            assert(t[bucket_of(x)] == s[bucket_of(x)]);
        }
    }
    assert(reg_view(t) =~= reg_view(s).insert(id, tv));
}

/// Two registries whose buckets denote the same entries denote the same
/// tenant map.
proof fn lemma_reg_same(s: Seq<Vec<(u64, Tenant)>>, t: Seq<Vec<(u64, Tenant)>>)
    requires
        s.len() == t.len(),
        forall|b: int| 0 <= b < s.len() ==> (#[trigger] t[b])@ == s[b]@,
    ensures
        reg_view(t) == reg_view(s),
{
    assert forall|x: u64| true implies #[trigger] reg_view(t).contains_key(x) == reg_view(
        s,
    ).contains_key(x) by {
        if 0 <= bucket_of(x) < s.len() {
            assert(t[bucket_of(x)]@ == s[bucket_of(x)]@);
        }
    }
    assert forall|x: u64| reg_view(t).contains_key(x) implies reg_view(t)[x] == reg_view(s)[x] by {
        assert(t[bucket_of(x)]@ == s[bucket_of(x)]@);
    }
    assert(reg_view(t) =~= reg_view(s));
}

/// The primary service. Master owns the tenant registry, the extension
/// manager, and the table heap, and turns RPC requests into schedulable
/// tasks.
pub struct Master {
    /// Sharded map of all tenants; each RPC takes one bucket lookup.
    tenants: Vec<Vec<(u64, Tenant)>>,
    /// State of every extension loaded into the system.
    extensions: ExtensionManager,
    /// Manager of the table heap; allocates the records tables hold.
    heap: Allocator,
}

impl View for Master {
    type V = Map<u64, Map<u64, Map<Seq<u8>, Seq<u8>>>>;

    closed spec fn view(&self) -> Map<u64, Map<u64, Map<Seq<u8>, Seq<u8>>>> {
        reg_view(self.tenants@)
    }
}

impl Master {
    /// Bucket count is fixed, every entry is well formed, filed under
    /// its own identifier, and sits in the bucket its identifier hashes
    /// to.
    pub closed spec fn wf(self) -> bool {
        &&& self.tenants@.len() == TENANT_BUCKETS
        &&& forall|b: int| 0 <= b < self.tenants@.len() ==> assoc_distinct(
            #[trigger] self.tenants@[b]@,
        )
        &&& forall|b: int, i: int|
            0 <= b < self.tenants@.len() && 0 <= i < self.tenants@[b]@.len() ==> {
                let e = #[trigger] self.tenants@[b]@[i];
                e.1.wf() && e.1.spec_id() == e.0 && bucket_of(e.0) == b
            }
        &&& self.extensions.wf()
    }

    /// The extensions loaded into the system, as the map from (tenant,
    /// name) to program.
    pub closed spec fn exts(self) -> Map<(u64, Seq<u8>), Seq<ExtOpView>> {
        self.extensions@
    }

    /// The heap every table's records come from.
    pub fn heap(&self) -> &Allocator {
        &self.heap
    }

    /// Loads an extension for a tenant under a name; the loader's
    /// product is the program handed in.
    pub fn load_extension(&mut self, tenant: u64, name: &[u8], program: Vec<ExtOp>) -> (r: bool)
        requires
            old(self).wf(),
        ensures
            r == true,
            final(self).wf(),
            final(self)@ == old(self)@,
            final(self).exts() == old(self).exts().insert((tenant, name@), prog_view(program@)),
    {
        let ghost s0 = self.tenants@;
        let r = self.extensions.load(tenant, name, program);
        proof {
            assert(self.tenants@ == s0);
        }
        r
    }

    /// Authorizes a second tenant for an extension the first owns.
    pub fn share_extension(&mut self, from: u64, to: u64, name: &[u8]) -> (r: bool)
        requires
            old(self).wf(),
        ensures
            final(self).wf(),
            final(self)@ == old(self)@,
            r <==> old(self).exts().contains_key((from, name@)),
            r ==> final(self).exts() == old(self).exts().insert(
                (to, name@),
                old(self).exts()[(from, name@)],
            ),
            !r ==> final(self).exts() == old(self).exts(),
    {
        self.extensions.share(from, to, name)
    }

    /// The extension filed under a tenant and name, if the tenant is
    /// authorized for one.
    pub fn get_extension(&self, tenant_id: u64, name: &[u8]) -> (r: Option<&LoadedExtension>)
        requires
            self.wf(),
        ensures
            match r {
                Some(ext) => self.exts().contains_key((tenant_id, name@)) && ext@ == self.exts()[
                    (tenant_id, name@)
                ],
                None => !self.exts().contains_key((tenant_id, name@)),
            },
    {
        self.extensions.get(tenant_id, name)
    }

    /// Creates a Master with an empty registry, no extensions, and a
    /// fresh heap.
    pub fn new() -> (r: Master)
        ensures
            r.wf(),
            r@ == Map::<u64, Map<u64, Map<Seq<u8>, Seq<u8>>>>::empty(),
            r.exts() == Map::<(u64, Seq<u8>), Seq<ExtOpView>>::empty(),
    {
        let mut tenants: Vec<Vec<(u64, Tenant)>> = Vec::new();
        let mut b: usize = 0;
        while b < TENANT_BUCKETS
            invariant
                0 <= b <= TENANT_BUCKETS,
                tenants@.len() == b,
                forall|i: int| 0 <= i < b ==> (#[trigger] tenants@[i])@.len() == 0,
            decreases TENANT_BUCKETS - b,
        {
            tenants.push(Vec::new());
            b += 1;
        }
        let r = Master { tenants, extensions: ExtensionManager::new(), heap: Allocator::new() };
        proof {
            assert(r@ =~= Map::<u64, Map<u64, Map<Seq<u8>, Seq<u8>>>>::empty());
        }
        r
    }

    /// The bucket index the identifier hashes to: the low byte masked by
    /// the bucket count.
    fn bucket_index(&self, id: u64) -> (b: usize)
        requires
            self.wf(),
        ensures
            b == bucket_of(id),
            b < TENANT_BUCKETS,
    {
        let b64 = (id & 0xff) & ((TENANT_BUCKETS as u64) - 1);
        proof {
            assert((id & 0xff) & 31u64 == id % 32u64) by (bit_vector);
        }
        b64 as usize
    }

    /// A handle to the tenant with the given identifier, if one exists.
    pub fn get_tenant(&self, tenant_id: u64) -> (r: Option<&Tenant>)
        requires
            self.wf(),
        ensures
            match r {
                Some(t) => {
                    &&& self@.contains_key(tenant_id)
                    &&& t.wf()
                    &&& t.spec_id() == tenant_id
                    &&& t@ == self@[tenant_id]
                },
                None => !self@.contains_key(tenant_id),
            },
    {
        let b = self.bucket_index(tenant_id);
        let bucket = &self.tenants[b];
        let n = bucket.len();
        let mut i: usize = 0;
        while i < n
            invariant
                self.wf(),
                b == bucket_of(tenant_id),
                b < self.tenants@.len(),
                bucket == &self.tenants[b as int],
                n == bucket@.len(),
                0 <= i <= n,
                forall|j: int| 0 <= j < i ==> #[trigger] bucket@[j].0 != tenant_id,
            decreases n - i,
        {
            if bucket[i].0 == tenant_id {
                proof {
                    lemma_assoc_at(bucket@, i as int);
                }
                return Some(&bucket[i].1);
            }
            i += 1;
        }
        proof {
            assert(!assoc_has(self.tenants@[bucket_of(tenant_id)]@, tenant_id));
        }
        None
    }

    /// Adds a tenant, overwriting any existing tenant with the same
    /// identifier.
    pub fn insert_tenant(&mut self, tenant: Tenant)
        requires
            old(self).wf(),
            tenant.wf(),
        ensures
            final(self).wf(),
            final(self)@ == old(self)@.insert(tenant.spec_id(), tenant@),
            final(self).exts() == old(self).exts(),
    {
        let ghost s0 = self.tenants@;
        let id = tenant.id();
        let b = self.bucket_index(id);
        let ghost bucket0 = self.tenants@[b as int]@;
        let n = self.tenants[b].len();
        let mut i: usize = 0;
        while i < n
            invariant
                *self == *old(self),
                old(self).wf(),
                s0 == self.tenants@,
                b == bucket_of(id),
                b < s0.len(),
                bucket0 == s0[b as int]@,
                n == bucket0.len(),
                0 <= i <= n,
                tenant.wf(),
                id == tenant.spec_id(),
                forall|j: int| 0 <= j < i ==> #[trigger] bucket0[j].0 != id,
            decreases n - i,
        {
            if self.tenants[b][i].0 == id {
                self.tenants[b][i].1 = tenant;
                proof {
                    lemma_assoc_update(bucket0, i as int, self.tenants@[b as int]@[i as int]);
                    assert(self.tenants@[b as int]@ =~= bucket0.update(
                        i as int,
                        self.tenants@[b as int]@[i as int],
                    ));
                    assert(self.tenants@ =~= s0.update(b as int, self.tenants@[b as int]));
                    lemma_reg_update(s0, b as int, self.tenants@[b as int], id, tenant@);
                }
                return;
            }
            i += 1;
        }
        self.tenants[b].push((id, tenant));
        proof {
            assert(!assoc_has(bucket0, id));
            lemma_assoc_push(bucket0, self.tenants@[b as int]@[bucket0.len() as int]);
            assert(self.tenants@[b as int]@ =~= bucket0.push(
                self.tenants@[b as int]@[bucket0.len() as int],
            ));
            assert(self.tenants@ =~= s0.update(b as int, self.tenants@[b as int]));
            lemma_reg_update(s0, b as int, self.tenants@[b as int], id, tenant@);
        }
    }

    /// Installs an already-allocated object under a key of a tenant's
    /// table. Reports which lookup failed, changing nothing on failure.
    pub fn tenant_table_put(&mut self, tenant_id: u64, table_id: u64, key: Vec<u8>, obj: ObjectRef)
        -> (r: PutOutcome)
        requires
            old(self).wf(),
        ensures
            final(self).wf(),
            final(self).exts() == old(self).exts(),
            r is NoTenant <==> !old(self)@.contains_key(tenant_id),
            r is NoTable <==> old(self)@.contains_key(tenant_id) && !old(self)@[tenant_id].contains_key(table_id),
            r is Installed <==> old(self)@.contains_key(tenant_id)
                && old(self)@[tenant_id].contains_key(table_id),
            r is Installed ==> final(self)@ == old(self)@.insert(
                tenant_id,
                old(self)@[tenant_id].insert(
                    table_id,
                    old(self)@[tenant_id][table_id].insert(key@, obj@),
                ),
            ),
            !(r is Installed) ==> final(self)@ == old(self)@,
    {
        let ghost s0 = self.tenants@;
        let b = self.bucket_index(tenant_id);
        let ghost bucket0 = self.tenants@[b as int]@;
        let n = self.tenants[b].len();
        let mut i: usize = 0;
        while i < n
            invariant
                *self == *old(self),
                old(self).wf(),
                s0 == self.tenants@,
                b == bucket_of(tenant_id),
                b < s0.len(),
                bucket0 == s0[b as int]@,
                n == bucket0.len(),
                0 <= i <= n,
                forall|j: int| 0 <= j < i ==> #[trigger] bucket0[j].0 != tenant_id,
            decreases n - i,
        {
            if self.tenants[b][i].0 == tenant_id {
                proof {
                    lemma_assoc_at(bucket0, i as int);
                }
                let ghost tv0 = self.tenants@[b as int]@[i as int].1@;
                let ok = self.tenants[b][i].1.put_object(table_id, key, obj);
                if ok {
                    proof {
                        lemma_assoc_update(bucket0, i as int, self.tenants@[b as int]@[i as int]);
                        assert(self.tenants@[b as int]@ =~= bucket0.update(
                            i as int,
                            self.tenants@[b as int]@[i as int],
                        ));
                        assert(self.tenants@ =~= s0.update(b as int, self.tenants@[b as int]));
                        lemma_reg_update(
                            s0,
                            b as int,
                            self.tenants@[b as int],
                            tenant_id,
                            self.tenants@[b as int]@[i as int].1@,
                        );
                    }
                    return PutOutcome::Installed;
                } else {
                    proof {
                        assert(self.tenants@[b as int]@ =~= bucket0);
                        lemma_reg_same(s0, self.tenants@);
                    }
                    return PutOutcome::NoTable;
                }
            }
            i += 1;
        }
        proof {
            assert(!assoc_has(bucket0, tenant_id));
        }
        PutOutcome::NoTenant
    }
}

/// The key of the `i`-th test object: its number in little-endian
/// order, padded with zeroes to thirty bytes.
pub open spec fn test_key(i: u32) -> Seq<u8> {
    u32_le_seq(i) + Seq::new(26, |j: int| 0u8)
}

/// The value of the `i`-th test object: its number in little-endian
/// order, padded with zeroes to one hundred bytes.
pub open spec fn test_value(i: u32) -> Seq<u8> {
    u32_le_seq(i) + Seq::new(96, |j: int| 0u8)
}

/// The table contents `fill_test` installs: objects one through `num`.
pub open spec fn test_objects(num: u32) -> Map<Seq<u8>, Seq<u8>>
    decreases num,
{
    if num == 0 {
        Map::empty()
    } else {
        test_objects((num - 1) as u32).insert(test_key(num), test_value(num))
    }
}

/// The name of the test get() extension.
pub open spec fn name_get() -> Seq<u8> {
    seq![103u8, 101u8, 116u8]
}

/// The name of the test put() extension.
pub open spec fn name_put() -> Seq<u8> {
    seq![112u8, 117u8, 116u8]
}

/// The name of the test tao() extension.
pub open spec fn name_tao() -> Seq<u8> {
    seq![116u8, 97u8, 111u8]
}

/// The program of the test get() extension: read the first test object
/// and return its value.
pub open spec fn test_get_prog() -> Seq<ExtOpView> {
    seq![ExtOpView::Get { table: 1u64, key: test_key(1), emit: true }]
}

/// The program of the test put() extension: install the first test
/// object.
pub open spec fn test_put_prog() -> Seq<ExtOpView> {
    seq![ExtOpView::Put { table: 1u64, key: test_key(1), value: test_value(1) }]
}

/// The program of the test tao() extension: echo the arguments.
pub open spec fn test_tao_prog() -> Seq<ExtOpView> {
    seq![ExtOpView::EmitArgs]
}

/// True of the extension-manager keys `load_test_shared(tenants)`
/// touches.
pub open spec fn shared_ext_key(k: (u64, Seq<u8>), tenants: u32) -> bool {
    (k.0 == 0 || 1 <= k.0 < tenants as u64) && (k.1 == name_get() || k.1 == name_put() || k.1
        == name_tao())
}

impl Master {
    /// Builds the key of the `i`-th test object.
    fn test_key_vec(i: u32) -> (r: Vec<u8>)
        ensures
            r@ == test_key(i),
    {
        let mut k: Vec<u8> = vec![0u8; 30];
        let le = u32_to_le(i);
        splice(&mut k, 0, le.as_slice());
        proof {
            assert(k@ =~= test_key(i));
        }
        k
    }

    /// Builds the value of the `i`-th test object.
    fn test_value_vec(i: u32) -> (r: Vec<u8>)
        ensures
            r@ == test_value(i),
    {
        let mut v: Vec<u8> = vec![0u8; 100];
        let le = u32_to_le(i);
        splice(&mut v, 0, le.as_slice());
        proof {
            assert(v@ =~= test_value(i));
        }
        v
    }

    /// Adds a tenant and a table full of objects: object `i`, for `i`
    /// from one through `num`, has its number in the head of both its
    /// thirty-byte key and its hundred-byte value. Any existing tenant
    /// with the same identifier is overwritten.
    pub fn fill_test(&mut self, tenant_id: u64, table_id: u64, num: u32)
        requires
            old(self).wf(),
            num < 0xffff_ffffu32,
        ensures
            final(self).wf(),
            final(self)@ == old(self)@.insert(
                tenant_id,
                Map::<u64, Map<Seq<u8>, Seq<u8>>>::empty().insert(table_id, test_objects(num)),
            ),
            final(self).exts() == old(self).exts(),
    {
        let mut tenant = Tenant::new(tenant_id);
        tenant.create_table(table_id);
        proof {
            assert(tenant@ =~= Map::<u64, Map<Seq<u8>, Seq<u8>>>::empty().insert(
                table_id,
                test_objects(0),
            ));
        }
        let mut i: u32 = 1;
        while i <= num
            invariant
                num < 0xffff_ffffu32,
                1 <= i <= num + 1,
                tenant.wf(),
                tenant.spec_id() == tenant_id,
                tenant@ == Map::<u64, Map<Seq<u8>, Seq<u8>>>::empty().insert(
                    table_id,
                    test_objects((i - 1) as u32),
                ),
            decreases num + 1 - i,
        {
            let key = Self::test_key_vec(i);
            let val = Self::test_value_vec(i);
            let allocated = self.heap.object(tenant_id, table_id, key.as_slice(), val.as_slice());
            match allocated {
                Some((k, obj)) => {
                    let ghost before = tenant@;
                    tenant.put_object(table_id, k, obj);
                    proof {
                        assert(before[table_id] == test_objects((i - 1) as u32));
                        assert(tenant@ =~= Map::<u64, Map<Seq<u8>, Seq<u8>>>::empty().insert(
                            table_id,
                            test_objects(i),
                        ));
                    }
                },
                None => {
                    proof {
                        assert(false);
                    }
                },
            }
            i += 1;
        }
        self.insert_tenant(tenant);
    }

    /// Loads the test get(), put(), and tao() extensions for a tenant.
    pub fn load_test(&mut self, tenant: u64)
        requires
            old(self).wf(),
        ensures
            final(self).wf(),
            final(self)@ == old(self)@,
            final(self).exts() == old(self).exts().insert((tenant, name_get()), test_get_prog())
                .insert((tenant, name_put()), test_put_prog()).insert(
                (tenant, name_tao()),
                test_tao_prog(),
            ),
    {
        let get_name: Vec<u8> = vec![103u8, 101u8, 116u8];
        let get_prog: Vec<ExtOp> = vec![
            ExtOp::Get { table: 1, key: Self::test_key_vec(1), emit: true },
        ];
        proof {
            assert(get_name@ =~= name_get());
            assert(prog_view(get_prog@) =~= test_get_prog());
        }
        self.load_extension(tenant, get_name.as_slice(), get_prog);

        let put_name: Vec<u8> = vec![112u8, 117u8, 116u8];
        let put_prog: Vec<ExtOp> = vec![
            ExtOp::Put { table: 1, key: Self::test_key_vec(1), value: Self::test_value_vec(1) },
        ];
        proof {
            assert(put_name@ =~= name_put());
            assert(prog_view(put_prog@) =~= test_put_prog());
        }
        self.load_extension(tenant, put_name.as_slice(), put_prog);

        let tao_name: Vec<u8> = vec![116u8, 97u8, 111u8];
        let tao_prog: Vec<ExtOp> = vec![ExtOp::EmitArgs];
        proof {
            assert(tao_name@ =~= name_tao());
            assert(prog_view(tao_prog@) =~= test_tao_prog());
        }
        self.load_extension(tenant, tao_name.as_slice(), tao_prog);
    }

    /// Loads the test extensions once, for tenant zero, and shares them
    /// with tenants one through `tenants - 1`.
    pub fn load_test_shared(&mut self, tenants: u32)
        requires
            old(self).wf(),
        ensures
            final(self).wf(),
            final(self)@ == old(self)@,
            forall|k: (u64, Seq<u8>)| shared_ext_key(k, tenants) ==> {
                &&& #[trigger] final(self).exts().contains_key(k)
                &&& final(self).exts()[k] == (if k.1 == name_get() {
                    test_get_prog()
                } else if k.1 == name_put() {
                    test_put_prog()
                } else {
                    test_tao_prog()
                })
            },
            forall|k: (u64, Seq<u8>)| !shared_ext_key(k, tenants) ==> {
                &&& (#[trigger] final(self).exts().contains_key(k) <==> old(
                    self,
                ).exts().contains_key(k))
                &&& (old(self).exts().contains_key(k) ==> final(self).exts()[k] == old(
                    self,
                ).exts()[k])
            },
    {
        self.load_test(0);
        let get_name: Vec<u8> = vec![103u8, 101u8, 116u8];
        let put_name: Vec<u8> = vec![112u8, 117u8, 116u8];
        let tao_name: Vec<u8> = vec![116u8, 97u8, 111u8];
        proof {
            assert(get_name@ =~= name_get());
            assert(put_name@ =~= name_put());
            assert(tao_name@ =~= name_tao());
        }
        let mut t: u32 = 1;
        while t < tenants
            invariant
                old(self).wf(),
                self.wf(),
                1 <= t <= vstd::math::max(tenants as int, 1),
                get_name@ == name_get(),
                put_name@ == name_put(),
                tao_name@ == name_tao(),
                self@ == old(self)@,
                forall|k: (u64, Seq<u8>)| shared_ext_key(k, t) ==> {
                    &&& #[trigger] self.exts().contains_key(k)
                    &&& self.exts()[k] == (if k.1 == name_get() {
                        test_get_prog()
                    } else if k.1 == name_put() {
                        test_put_prog()
                    } else {
                        test_tao_prog()
                    })
                },
                forall|k: (u64, Seq<u8>)| !shared_ext_key(k, t) ==> {
                    &&& (#[trigger] self.exts().contains_key(k) <==> old(self).exts().contains_key(
                        k,
                    ))
                    &&& (old(self).exts().contains_key(k) ==> self.exts()[k] == old(self).exts()[k])
                },
            decreases tenants - t,
        {
            self.share_extension(0, t as u64, get_name.as_slice());
            self.share_extension(0, t as u64, put_name.as_slice());
            self.share_extension(0, t as u64, tao_name.as_slice());
            t += 1;
        }
    }

    /// Reads the value under a key of a tenant's table, exactly as the
    /// native get handler would; a missing tenant, table, or key all
    /// read as a miss, which is what an extension's context reports.
    pub fn ctx_get(&self, tenant_id: u64, table_id: u64, key: &[u8]) -> (r: Option<Vec<u8>>)
        requires
            self.wf(),
        ensures
            match r {
                Some(v) => {
                    &&& tables_of(self@, tenant_id).contains_key(table_id)
                    &&& tables_of(self@, tenant_id)[table_id].contains_key(key@)
                    &&& v@ == tables_of(self@, tenant_id)[table_id][key@]
                },
                None => !(tables_of(self@, tenant_id).contains_key(table_id) && tables_of(
                    self@,
                    tenant_id,
                )[table_id].contains_key(key@)),
            },
    {
        let tenant = match self.get_tenant(tenant_id) {
            Some(t) => t,
            None => {
                return None;
            },
        };
        let table = match tenant.get_table(table_id) {
            Some(t) => t,
            None => {
                return None;
            },
        };
        let obj = match table.get(key) {
            Some(o) => o,
            None => {
                return None;
            },
        };
        match self.heap.resolve(obj) {
            Some((_k, v)) => Some(crate::ext::clone_bytes(v)),
            None => None,
        }
    }

    /// Writes a value under a key of a tenant's table, allocating the
    /// record on the heap; fails, changing nothing, when the tenant or
    /// the table is unknown, which is what an extension's context
    /// reports.
    pub fn ctx_put(&mut self, tenant_id: u64, table_id: u64, key: &[u8], value: &[u8]) -> (ok: bool)
        requires
            old(self).wf(),
        ensures
            final(self).wf(),
            final(self).exts() == old(self).exts(),
            ok <==> tables_of(old(self)@, tenant_id).contains_key(table_id),
            ok ==> final(self)@ == old(self)@.insert(
                tenant_id,
                old(self)@[tenant_id].insert(
                    table_id,
                    old(self)@[tenant_id][table_id].insert(key@, value@),
                ),
            ),
            !ok ==> final(self)@ == old(self)@,
    {
        let allocated = self.heap.object(tenant_id, table_id, key, value);
        match allocated {
            Some((k, obj)) => {
                let r = self.tenant_table_put(tenant_id, table_id, k, obj);
                match r {
                    PutOutcome::Installed => true,
                    PutOutcome::NoTenant => false,
                    PutOutcome::NoTable => false,
                }
            },
            None => {
                proof {
                    assert(false);
                }
                false
            },
        }
    }
}

/// A pre-allocated response packet the handlers accept: empty, clean,
/// and small enough that a value length fits the wire's 32-bit field.
pub open spec fn fresh_response(res: Response) -> bool {
    &&& res.wf()
    &&& res.payload@.len() == 0
    &&& res.status is StatusOk
    &&& res.value_length == 0
    &&& res.capacity <= 0xffff_ffffusize
}

impl Master {
    /// Handles a native get() request: validates it and wraps the lookup
    /// as a single-shot task. A malformed payload or an unknown tenant
    /// is rejected here, before any task exists, with the fault on the
    /// response.
    pub fn get(&self, req: Request, res: Response) -> (r: Result<Task, (Request, Response)>)
        requires
            self.wf(),
            req.opcode == OPCODE_GET,
            fresh_response(res),
        ensures
            match r {
                Ok(t) => {
                    &&& req.payload@.len() >= req.key_length
                    &&& self@.contains_key(req.tenant as u64)
                    &&& t.wf()
                    &&& t is Native
                    &&& t.spec_state() is Initialized
                    &&& t.spec_priority() is Request
                    &&& t.spec_req() == req
                    &&& t.spec_res().stamp == req.stamp
                    &&& t.spec_res().opcode == req.opcode
                    &&& t.spec_res().capacity == res.capacity
                },
                Err(f) => {
                    &&& req.payload@.len() < req.key_length || !self@.contains_key(
                        req.tenant as u64,
                    )
                    &&& f.0 == req
                    &&& f.1.stamp == req.stamp
                    &&& f.1.opcode == req.opcode
                    &&& f.1.payload@.len() == 0
                    &&& (req.payload@.len() < req.key_length ==> f.1.status
                        is StatusMalformedRequest)
                    &&& (req.payload@.len() >= req.key_length ==> f.1.status
                        is StatusTenantDoesNotExist)
                },
            },
    {
        let mut res = res;
        res.stamp = req.stamp;
        res.opcode = req.opcode;
        if req.payload.len() < req.key_length as usize {
            res.status = RpcStatus::StatusMalformedRequest;
            return Err((req, res));
        }
        if self.get_tenant(req.tenant as u64).is_none() {
            res.status = RpcStatus::StatusTenantDoesNotExist;
            return Err((req, res));
        }
        Ok(Task::Native(NativeTask::new(TaskPriority::Request, req, res)))
    }

    /// Handles a native put() request: validates it and wraps the write
    /// as a single-shot task, rejecting a malformed payload or an
    /// unknown tenant here.
    pub fn put(&self, req: Request, res: Response) -> (r: Result<Task, (Request, Response)>)
        requires
            self.wf(),
            req.opcode == OPCODE_PUT,
            fresh_response(res),
        ensures
            match r {
                Ok(t) => {
                    &&& req.payload@.len() >= req.key_length
                    &&& self@.contains_key(req.tenant as u64)
                    &&& t.wf()
                    &&& t is Native
                    &&& t.spec_state() is Initialized
                    &&& t.spec_priority() is Request
                    &&& t.spec_req() == req
                    &&& t.spec_res().stamp == req.stamp
                    &&& t.spec_res().opcode == req.opcode
                    &&& t.spec_res().capacity == res.capacity
                },
                Err(f) => {
                    &&& req.payload@.len() < req.key_length || !self@.contains_key(
                        req.tenant as u64,
                    )
                    &&& f.0 == req
                    &&& f.1.stamp == req.stamp
                    &&& f.1.opcode == req.opcode
                    &&& f.1.payload@.len() == 0
                    &&& (req.payload@.len() < req.key_length ==> f.1.status
                        is StatusMalformedRequest)
                    &&& (req.payload@.len() >= req.key_length ==> f.1.status
                        is StatusTenantDoesNotExist)
                },
            },
    {
        let mut res = res;
        res.stamp = req.stamp;
        res.opcode = req.opcode;
        if req.payload.len() < req.key_length as usize {
            res.status = RpcStatus::StatusMalformedRequest;
            return Err((req, res));
        }
        if self.get_tenant(req.tenant as u64).is_none() {
            res.status = RpcStatus::StatusTenantDoesNotExist;
            return Err((req, res));
        }
        Ok(Task::Native(NativeTask::new(TaskPriority::Request, req, res)))
    }

    /// Handles an invoke() request: validates it, looks the named
    /// extension up under the issuing tenant, and wraps the invocation
    /// as a resumable container task with the deployment's cycle budget.
    /// A malformed payload, an unknown tenant, and an extension the
    /// tenant is not authorized for are rejected here.
    pub fn invoke(&self, req: Request, res: Response) -> (r: Result<Task, (Request, Response)>)
        requires
            self.wf(),
            req.opcode == OPCODE_INVOKE,
            fresh_response(res),
        ensures
            ({
                let short = (req.payload@.len() as int) < req.name_length + req.args_length;
                let tenant = req.tenant as u64;
                let name = req.payload@.subrange(0, req.name_length as int);
                let known = self@.contains_key(tenant);
                let authorized = self.exts().contains_key((tenant, name));
                match r {
                    Ok(t) => {
                        &&& !short
                        &&& known
                        &&& authorized
                        &&& t.wf()
                        &&& t is Container
                        &&& t.spec_state() is Initialized
                        &&& t.spec_priority() is Request
                        &&& t.spec_req() == req
                        &&& t.spec_res().stamp == req.stamp
                        &&& t.spec_res().opcode == req.opcode
                        &&& t.spec_res().capacity == res.capacity
                        &&& (t matches Task::Container(c) ==> {
                            &&& c.spec_tenant() == tenant
                            &&& c.spec_prog() == self.exts()[(tenant, name)]
                            &&& c.spec_pc() == 0
                            &&& c.spec_args() == req.payload@.subrange(
                                req.name_length as int,
                                req.name_length + req.args_length,
                            )
                            &&& c.spec_cycles_consumed() == 0
                            &&& c.spec_cycles_budget() == CONTAINER_CYCLES_BUDGET
                            &&& c.spec_reads() == Seq::<(Seq<u8>, Seq<u8>)>::empty()
                            &&& c.spec_writes() == Seq::<(Seq<u8>, Seq<u8>)>::empty()
                            &&& c.spec_sum() == 0
                            &&& c.spec_res().payload@.len() == 0
                            &&& c.spec_res().status is StatusOk
                        })
                    },
                    Err(f) => {
                        &&& short || !known || !authorized
                        &&& f.0 == req
                        &&& f.1.stamp == req.stamp
                        &&& f.1.opcode == req.opcode
                        &&& f.1.payload@.len() == 0
                        &&& (short ==> f.1.status is StatusMalformedRequest)
                        &&& (!short && !known ==> f.1.status is StatusTenantDoesNotExist)
                        &&& (!short && known && !authorized ==> f.1.status is StatusInvalidExtension)
                    },
                }
            }),
    {
        let mut res = res;
        res.stamp = req.stamp;
        res.opcode = req.opcode;
        let name_length = req.name_length as usize;
        let args_length = req.args_length as usize;
        if (req.payload.len() as u64) < (req.name_length as u64) + (req.args_length as u64) {
            res.status = RpcStatus::StatusMalformedRequest;
            return Err((req, res));
        }
        let tenant_id = req.tenant as u64;
        if self.get_tenant(tenant_id).is_none() {
            res.status = RpcStatus::StatusTenantDoesNotExist;
            return Err((req, res));
        }
        let (name, _rest) = req.payload.as_slice().split_at(name_length);
        let ext = match self.get_extension(tenant_id, name) {
            Some(ext) => ext.duplicate(),
            None => {
                res.status = RpcStatus::StatusInvalidExtension;
                return Err((req, res));
            },
        };
        let args = sub_vec(req.payload.as_slice(), name_length, name_length + args_length);
        Ok(
            Task::Container(
                ContainerTask::new(
                    TaskPriority::Request,
                    tenant_id,
                    ext,
                    args,
                    req,
                    res,
                    CONTAINER_CYCLES_BUDGET,
                ),
            ),
        )
    }

    /// Routes a parsed opcode to the matching handler. An opcode this
    /// server does not understand is answered with a malformed-request
    /// fault and consumes no scheduler capacity: no task is created.
    pub fn dispatch(&self, op: OpCode, req: Request, res: Response) -> (r: Result<
        Task,
        (Request, Response),
    >)
        requires
            self.wf(),
            fresh_response(res),
            op is SandstormGetRpc ==> req.opcode == OPCODE_GET,
            op is SandstormPutRpc ==> req.opcode == OPCODE_PUT,
            op is SandstormInvokeRpc ==> req.opcode == OPCODE_INVOKE,
        ensures
            op is InvalidOperation ==> (r matches Err(f) && f.0 == req && f.1.stamp == req.stamp
                && f.1.status is StatusMalformedRequest && f.1.payload@.len() == 0),
            r matches Ok(t) ==> t.wf() && t.spec_state() is Initialized && t.spec_req() == req
                && t.spec_res().stamp == req.stamp && t.spec_res().capacity == res.capacity,
            r matches Err(f) ==> f.0 == req && f.1.stamp == req.stamp && f.1.wf()
                && !(f.1.status is StatusOk),
            // A get() or put() opcode reaches its handler, with its
            // handler's whole guarantee: validated here, wrapped as a
            // single-shot task.
            op is SandstormGetRpc || op is SandstormPutRpc ==> match r {
                Ok(t) => {
                    &&& req.payload@.len() >= req.key_length
                    &&& self@.contains_key(req.tenant as u64)
                    &&& t is Native
                    &&& t.spec_priority() is Request
                    &&& t.spec_res().opcode == req.opcode
                },
                Err(f) => {
                    &&& req.payload@.len() < req.key_length || !self@.contains_key(
                        req.tenant as u64,
                    )
                    &&& f.1.opcode == req.opcode
                    &&& f.1.payload@.len() == 0
                    &&& (req.payload@.len() < req.key_length ==> f.1.status
                        is StatusMalformedRequest)
                    &&& (req.payload@.len() >= req.key_length ==> f.1.status
                        is StatusTenantDoesNotExist)
                },
            },
            // An invoke() opcode reaches its handler, with its handler's
            // whole guarantee: validated and authorized here, wrapped as
            // a fresh container task over the named extension.
            op is SandstormInvokeRpc ==> ({
                let short = (req.payload@.len() as int) < req.name_length + req.args_length;
                let tenant = req.tenant as u64;
                let name = req.payload@.subrange(0, req.name_length as int);
                let known = self@.contains_key(tenant);
                let authorized = self.exts().contains_key((tenant, name));
                match r {
                    Ok(t) => {
                        &&& !short
                        &&& known
                        &&& authorized
                        &&& t is Container
                        &&& t.spec_priority() is Request
                        &&& t.spec_res().opcode == req.opcode
                        &&& (t matches Task::Container(c) ==> {
                            &&& c.spec_tenant() == tenant
                            &&& c.spec_prog() == self.exts()[(tenant, name)]
                            &&& c.spec_pc() == 0
                            &&& c.spec_args() == req.payload@.subrange(
                                req.name_length as int,
                                req.name_length + req.args_length,
                            )
                            &&& c.spec_cycles_consumed() == 0
                            &&& c.spec_cycles_budget() == CONTAINER_CYCLES_BUDGET
                            &&& c.spec_reads() == Seq::<(Seq<u8>, Seq<u8>)>::empty()
                            &&& c.spec_writes() == Seq::<(Seq<u8>, Seq<u8>)>::empty()
                            &&& c.spec_sum() == 0
                            &&& c.spec_res().payload@.len() == 0
                            &&& c.spec_res().status is StatusOk
                        })
                    },
                    Err(f) => {
                        &&& short || !known || !authorized
                        &&& f.1.opcode == req.opcode
                        &&& f.1.payload@.len() == 0
                        &&& (short ==> f.1.status is StatusMalformedRequest)
                        &&& (!short && !known ==> f.1.status is StatusTenantDoesNotExist)
                        &&& (!short && known && !authorized ==> f.1.status
                            is StatusInvalidExtension)
                    },
                }
            }),
    {
        match op {
            OpCode::SandstormGetRpc => self.get(req, res),
            OpCode::SandstormPutRpc => self.put(req, res),
            OpCode::SandstormInvokeRpc => self.invoke(req, res),
            OpCode::InvalidOperation => {
                let mut res = res;
                res.stamp = req.stamp;
                res.status = RpcStatus::StatusMalformedRequest;
                Err((req, res))
            },
        }
    }
}

/// What a put against the registry found: the tenant and table both
/// existed and the object went in, or the lookup stopped short.
pub enum PutOutcome {
    /// The object is installed.
    Installed,
    /// No tenant with the given identifier exists.
    NoTenant,
    /// The tenant exists but owns no such table.
    NoTable,
}

} // verus!
