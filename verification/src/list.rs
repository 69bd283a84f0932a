use vstd::prelude::*;
use crate::assoc::{assoc_distinct, assoc_has, assoc_view, lemma_assoc_at};
use crate::db::DB;
use crate::ext::clone_bytes;
use crate::extension_interface::{Extension, ExtensionResult};

verus! {

/// One node of a singly linked list stored as table objects: the key
/// of the next node, if any, and this node's payload.
pub struct ListNode {
    /// Key of the node after this one; the last node carries none.
    pub next_node_key: Option<u64>,
    /// This node's payload bytes.
    pub data: Vec<u8>,
}

impl View for ListNode {
    type V = (Option<u64>, Seq<u8>);

    open spec fn view(&self) -> (Option<u64>, Seq<u8>) {
        (self.next_node_key, self.data@)
    }
}

/// The payload of the last node reachable from `node` within `fuel`
/// hops, or nothing when a link dangles or the chain is longer than
/// the fuel allows — which is how a cyclic list surfaces.
pub open spec fn chase(
    nodes: Map<u64, (Option<u64>, Seq<u8>)>,
    node: (Option<u64>, Seq<u8>),
    fuel: nat,
) -> Option<Seq<u8>>
    decreases fuel,
{
    match node.0 {
        None => Some(node.1),
        Some(k) => {
            if fuel == 0 {
                None
            } else if nodes.contains_key(k) {
                chase(nodes, nodes[k], (fuel - 1) as nat)
            } else {
                None
            }
        },
    }
}

/// Walks a list from its first node to its last and returns the last
/// node's payload. The walk follows at most `fuel` links; a dangling
/// link, or a chain longer than that — a cycle, in particular — is an
/// error, reported as the data service reports a failed lookup.
pub fn find_last_elem(nodes: &Vec<(u64, ListNode)>, first: &ListNode, fuel: usize) -> (r: Result<
    Vec<u8>,
    crate::db::SandstormErr,
>)
    requires
        assoc_distinct(nodes@),
    ensures
        match r {
            Ok(d) => chase(assoc_view(nodes@), first@, fuel as nat) == Some(d@),
            Err(_) => chase(assoc_view(nodes@), first@, fuel as nat) is None,
        },
{
    let mut next = first.next_node_key;
    let mut data = clone_bytes(&first.data);
    let mut left = fuel;
    while next.is_some()
        invariant
            assoc_distinct(nodes@),
            chase(assoc_view(nodes@), (next, data@), left as nat) == chase(
                assoc_view(nodes@),
                first@,
                fuel as nat,
            ),
        decreases left,
    {
        let k = next.unwrap();
        if left == 0 {
            return Err(crate::db::SandstormErr::TableDoesNotExist);
        }
        let node = match lookup_node(nodes, k) {
            Some(n) => n,
            None => {
                return Err(crate::db::SandstormErr::TableDoesNotExist);
            },
        };
        next = node.next_node_key;
        data = clone_bytes(&node.data);
        left = left - 1;
    }
    Ok(data)
}

/// Finds the node filed under a key.
fn lookup_node(nodes: &Vec<(u64, ListNode)>, k: u64) -> (r: Option<&ListNode>)
    requires
        assoc_distinct(nodes@),
    ensures
        match r {
            Some(n) => assoc_view(nodes@).contains_key(k) && n@ == assoc_view(nodes@)[k],
            None => !assoc_view(nodes@).contains_key(k),
        },
{
    let n = nodes.len();
    let mut i: usize = 0;
    while i < n
        invariant
            assoc_distinct(nodes@),
            n == nodes@.len(),
            0 <= i <= n,
            forall|j: int| 0 <= j < i ==> #[trigger] nodes@[j].0 != k,
        decreases n - i,
    {
        if nodes[i].0 == k {
            proof {
                lemma_assoc_at(nodes@, i as int);
            }
            return Some(&nodes[i].1);
        }
        i += 1;
    }
    proof {
        assert(!assoc_has(nodes@, k));
    }
    None
}

/// The list procedure: handed the key of a list's first node, it
/// returns that node's stored value, or says what went wrong.
pub struct ListExtension {}

impl<D: DB> Extension<D> for ListExtension {
    /// This extension keeps no state across its lifetime.
    fn init(&mut self) {
    }

    /// Nothing to tear down.
    fn destroy(&mut self) {
    }

    /// Requires exactly one key: the first node's. Answers the stored
    /// bytes under it, or reports the failed lookup.
    fn call(&mut self, db: &mut D, tbl_id: u64, keys: Vec<Vec<u8>>, _args: Vec<u8>)
        -> ExtensionResult {
        if keys.len() == 0 {
            let err = "Got an empty list of keys. This extension requires exactly 1 key.";
            return ExtensionResult::ERROR(err.to_owned());
        }
        match db.get_key(tbl_id, &keys[0]) {
            Ok(value) => ExtensionResult::SUCCESS(value),
            Err(_) => {
                let err = "Table or key was not found.";
                ExtensionResult::ERROR(err.to_owned())
            },
        }
    }
}

} // verus!
