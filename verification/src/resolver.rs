//! Where a block's payload lies in the data store.
//!
//! No index of block offsets is kept. The offset of a block is the sum of the
//! sizes that the tree records for the full roots left of it, and its length
//! is the size of its own leaf. The nodes are looked up among those the
//! caller has cached; nothing is fetched here.

use vstd::prelude::*;

use crate::error::StorageError;
use crate::flat;
use crate::node::{Node, NodeView};
use crate::store::Store;

verus! {

/// The cached nodes as mathematical values.
pub open spec fn views(nodes: Seq<Node>) -> Seq<NodeView> {
    nodes.map_values(|node: Node| node@)
}

/// Whether the node at place `at` of the cache is the first one that stands
/// at position `index` of the tree.
pub open spec fn first_at(nodes: Seq<NodeView>, index: nat, at: int) -> bool {
    &&& 0 <= at < nodes.len()
    &&& nodes[at].index == index
    &&& forall|before: int| 0 <= before < at ==> (#[trigger] nodes[before]).index != index
}

/// The first cached node that stands at position `index` of the tree.
pub open spec fn cached(nodes: Seq<NodeView>, index: nat) -> Option<NodeView> {
    if exists|at: int| first_at(nodes, index, at) {
        Some(nodes[choose|at: int| first_at(nodes, index, at)])
    } else {
        None
    }
}

/// The payload bytes under all of `roots`, or the first of them that is not
/// cached.
pub open spec fn sizes_under(roots: Seq<nat>, nodes: Seq<NodeView>) -> Result<nat, nat>
    decreases roots.len(),
{
    if roots.len() == 0 {
        Ok(0)
    } else {
        match cached(nodes, roots[0]) {
            None => Err(roots[0]),
            Some(root) => match sizes_under(roots.drop_first(), nodes) {
                Ok(rest) => Ok(root.size + rest),
                Err(missing) => Err(missing),
            },
        }
    }
}

/// Offset and length of block `index` in the data store, as the cached nodes
/// give them.
///
/// A full root or the block's own leaf that is not cached is reported as
/// missing, the roots first and in ascending order. A range that ends beyond
/// what an offset can address shows the cached sizes to be corrupt.
pub open spec fn resolve_spec(index: nat, nodes: Seq<NodeView>) -> Result<
    (usize, usize),
    StorageError,
> {
    match sizes_under(flat::full_roots_spec(index), nodes) {
        Err(missing) => Err(StorageError::MissingNode { index: missing as usize }),
        Ok(offset) => match cached(nodes, 2 * index) {
            None => Err(StorageError::MissingNode { index: (2 * index) as usize }),
            Some(leaf) => if offset + leaf.size <= usize::MAX {
                Ok((offset as usize, leaf.size as usize))
            } else {
                Err(StorageError::Corrupt { store: Store::Tree, index: (2 * index) as usize })
            },
        },
    }
}

/// Block 0 starts at offset 0 and is as long as its leaf says.
pub proof fn lemma_first_block(nodes: Seq<NodeView>)
    ensures
        cached(nodes, 0) matches Some(leaf) ==> leaf.size <= usize::MAX ==> resolve_spec(0, nodes)
            == Ok::<(usize, usize), StorageError>((0usize, leaf.size as usize)),
{
}

/// Finds the first node of `nodes` that stands at position `index`.
pub fn find_node(nodes: &[Node], index: usize) -> (found: Option<Node>)
    ensures
        match found {
            Some(node) => cached(views(nodes@), index as nat) == Some(node@),
            None => cached(views(nodes@), index as nat) is None,
        },
{
    let ghost cache = views(nodes@);
    let mut i: usize = 0;
    while i < nodes.len()
        invariant
            i <= nodes.len(),
            cache == views(nodes@),
            forall|before: int| 0 <= before < i ==> (#[trigger] cache[before]).index != index,
        decreases nodes.len() - i,
    {
        let node = nodes[i];
        if node.index() == index {
            proof {
                assert(cache[i as int] == node@);
                assert(first_at(cache, index as nat, i as int));
                let at = choose|at: int| first_at(cache, index as nat, at);
                assert(at == i) by {
                    if at < i {
                        assert(cache[at].index != index);
                    } else if at > i {
                        assert(cache[i as int].index != index);
                    }
                }
            }
            return Some(node);
        }
        assert(cache[i as int] == node@);
        i += 1;
    }
    None
}

/// Offset and length of block `index` in the data store, from the cached
/// nodes alone.
pub fn resolve_offset(index: usize, nodes: &[Node]) -> (r: Result<(usize, usize), StorageError>)
    requires
        2 * index <= usize::MAX,
    ensures
        r == resolve_spec(index as nat, views(nodes@)),
        r matches Ok((offset, size)) ==> offset + size <= usize::MAX,
{
    let roots = flat::full_roots(index);
    let ghost cache = views(nodes@);
    let ghost wanted = flat::positions(roots@);
    let mut total: u128 = 0;
    let mut i: usize = 0;
    assert(wanted.skip(0) =~= wanted);
    while i < roots.len()
        invariant
            i <= roots.len(),
            cache == views(nodes@),
            wanted == flat::positions(roots@),
            wanted == flat::full_roots_spec(index as nat),
            total <= i * 0xFFFF_FFFF_FFFF_FFFF,
            sizes_under(wanted, cache) == match sizes_under(wanted.skip(i as int), cache) {
                Ok(rest) => Ok::<nat, nat>(total as nat + rest),
                Err(missing) => Err(missing),
            },
        decreases roots.len() - i,
    {
        let root = roots[i];
        proof {
            let left = wanted.skip(i as int);
            assert(left[0] == root as nat);
            assert(left.drop_first() =~= wanted.skip(i + 1));
        }
        match find_node(nodes, root) {
            None => {
                return Err(StorageError::MissingNode { index: root });
            },
            Some(node) => {
                total = total + node.size() as u128;
            },
        }
        i += 1;
    }
    assert(wanted.skip(i as int) =~= Seq::<nat>::empty());
    match find_node(nodes, 2 * index) {
        None => Err(StorageError::MissingNode { index: 2 * index }),
        Some(leaf) => {
            let size = leaf.size();
            if total + size as u128 <= usize::MAX as u128 {
                Ok((total as usize, size as usize))
            } else {
                Err(StorageError::Corrupt { store: Store::Tree, index: 2 * index })
            }
        },
    }
}

} // verus!
