//! Tree nodes and their 40-byte records.

use vstd::prelude::*;

use crate::error::StorageError;
use crate::store::Store;

verus! {

/// Number of bytes a node's hash takes.
pub const HASH_SIZE: usize = 32;

/// Number of bytes a node record takes: the hash, then the size as a
/// big-endian 64-bit number.
pub const NODE_SIZE: usize = 40;

/// A node of the Merkle tree: its position in the flat tree, the hash of the
/// subtree below it, and the number of payload bytes under its leaves.
#[derive(Debug, Clone, Copy, PartialEq, Eq)]
pub struct Node {
    index: usize,
    hash: [u8; 32],
    size: u64,
}

/// A node as a mathematical value.
pub ghost struct NodeView {
    /// Position in the flat tree.
    pub index: nat,
    /// The 32 bytes of the hash.
    pub hash: Seq<u8>,
    /// Payload bytes under the node.
    pub size: nat,
}

impl NodeView {
    /// A hash of 32 bytes and a size that fits the record's eight bytes.
    pub open spec fn valid(self) -> bool {
        self.hash.len() == 32 && self.size <= u64::MAX
    }
}

/// The eight bytes of `value`, most significant first.
pub open spec fn be_bytes(value: nat) -> Seq<u8> {
    seq![
        (value / 0x100_0000_0000_0000 % 256) as u8,
        (value / 0x1_0000_0000_0000 % 256) as u8,
        (value / 0x100_0000_0000 % 256) as u8,
        (value / 0x1_0000_0000 % 256) as u8,
        (value / 0x100_0000 % 256) as u8,
        (value / 0x1_0000 % 256) as u8,
        (value / 0x100 % 256) as u8,
        (value % 256) as u8,
    ]
}

/// The number whose eight bytes, most significant first, are `bytes`.
pub open spec fn be_value(bytes: Seq<u8>) -> nat {
    (bytes[0] * 0x100_0000_0000_0000 + bytes[1] * 0x1_0000_0000_0000 + bytes[2] * 0x100_0000_0000
        + bytes[3] * 0x1_0000_0000 + bytes[4] * 0x100_0000 + bytes[5] * 0x1_0000 + bytes[6] * 0x100
        + bytes[7]) as nat
}

/// The record of a node: its hash followed by its size.
pub open spec fn encode_node(node: NodeView) -> Seq<u8> {
    node.hash + be_bytes(node.size)
}

/// The node a record at position `index` holds, if the record has the right
/// length.
pub open spec fn decode_node(index: nat, record: Seq<u8>) -> Option<NodeView> {
    if record.len() == 40 {
        Some(
            NodeView {
                index,
                hash: record.subrange(0, 32),
                size: be_value(record.subrange(32, 40)),
            },
        )
    } else {
        None
    }
}

/// Reading the eight bytes of a number gives the number back.
pub proof fn lemma_be_roundtrip(value: nat)
    requires
        value <= u64::MAX,
    ensures
        be_bytes(value).len() == 8,
        be_value(be_bytes(value)) == value,
{
    let v = value as u64;
    assert((v / 0x100_0000_0000_0000 % 256) * 0x100_0000_0000_0000 + (v / 0x1_0000_0000_0000 % 256)
        * 0x1_0000_0000_0000 + (v / 0x100_0000_0000 % 256) * 0x100_0000_0000 + (v / 0x1_0000_0000
        % 256) * 0x1_0000_0000 + (v / 0x100_0000 % 256) * 0x100_0000 + (v / 0x1_0000 % 256)
        * 0x1_0000 + (v / 0x100 % 256) * 0x100 + v % 256 == v) by (bit_vector);
}

/// Decoding the record of a valid node gives the node back, and a record is
/// always 40 bytes long.
pub proof fn lemma_decode_encode(node: NodeView)
    requires
        node.valid(),
    ensures
        encode_node(node).len() == 40,
        decode_node(node.index, encode_node(node)) == Some(node),
{
    lemma_be_roundtrip(node.size);
    let record = encode_node(node);
    assert(record.subrange(0, 32) =~= node.hash);
    assert(record.subrange(32, 40) =~= be_bytes(node.size));
}

impl View for Node {
    type V = NodeView;

    closed spec fn view(&self) -> NodeView {
        NodeView { index: self.index as nat, hash: self.hash@, size: self.size as nat }
    }
}

impl Node {
    /// The node at `index` with the given hash and size.
    pub fn new(index: usize, hash: [u8; 32], size: u64) -> (node: Self)
        ensures
            node@ == (NodeView { index: index as nat, hash: hash@, size: size as nat }),
            node@.valid(),
    {
        Node { index, hash, size }
    }

    /// Every node is valid: its hash has 32 bytes and its size fits eight.
    pub proof fn lemma_valid(self)
        ensures
            self@.valid(),
    {
    }

    /// Position in the flat tree.
    pub fn index(&self) -> (index: usize)
        ensures
            index == self@.index,
    {
        self.index
    }

    /// The hash of the subtree below the node.
    pub fn hash(&self) -> (hash: [u8; 32])
        ensures
            hash@ == self@.hash,
    {
        self.hash
    }

    /// The number of payload bytes under the node's leaves.
    pub fn size(&self) -> (size: u64)
        ensures
            size == self@.size,
    {
        self.size
    }

    /// Decodes the record found at position `index`. A buffer that is not 40
    /// bytes long is refused as corrupt.
    pub fn from_vec(index: usize, buffer: &[u8]) -> (r: Result<Node, StorageError>)
        ensures
            match r {
                Ok(node) => decode_node(index as nat, buffer@) == Some(node@),
                Err(StorageError::Corrupt { store, index: at }) => store == Store::Tree && at
                    == index && decode_node(index as nat, buffer@) is None,
                Err(_) => false,
            },
    {
        if buffer.len() != NODE_SIZE {
            return Err(StorageError::Corrupt { store: Store::Tree, index });
        }
        let mut hash = [0u8; 32];
        let mut i: usize = 0;
        while i < HASH_SIZE
            invariant
                i <= 32,
                buffer@.len() == 40,
                forall|j: int| 0 <= j < i ==> hash@[j] == buffer@[j],
            decreases 32 - i,
        {
            hash[i] = buffer[i];
            i += 1;
        }
        let mut size: u64 = 0;
        let mut k: usize = 0;
        let ghost tail = buffer@.subrange(32, 40);
        while k < 8
            invariant
                k <= 8,
                buffer@.len() == 40,
                tail == buffer@.subrange(32, 40),
                size as nat == partial_value(tail, k as nat),
                size as nat <= bound(k as nat),
            decreases 8 - k,
        {
            proof {
                reveal_with_fuel(partial_value, 2);
                reveal_with_fuel(bound, 2);
                lemma_bound(k as nat);
            }
            size = size * 256 + buffer[HASH_SIZE + k] as u64;
            k += 1;
        }
        proof {
            lemma_partial_value(tail);
            assert(hash@ =~= buffer@.subrange(0, 32));
        }
        Ok(Node { index, hash, size })
    }

    /// The node's 40-byte record.
    pub fn to_vec(&self) -> (record: Vec<u8>)
        ensures
            record@ == encode_node(self@),
            record@.len() == 40,
    {
        let mut record: Vec<u8> = Vec::with_capacity(NODE_SIZE);
        let mut i: usize = 0;
        while i < HASH_SIZE
            invariant
                i <= 32,
                record@.len() == i,
                forall|j: int| 0 <= j < i ==> record@[j] == self.hash@[j],
            decreases 32 - i,
        {
            record.push(self.hash[i]);
            i += 1;
        }
        let size = self.size;
        record.push((size / 0x100_0000_0000_0000 % 256) as u8);
        record.push((size / 0x1_0000_0000_0000 % 256) as u8);
        record.push((size / 0x100_0000_0000 % 256) as u8);
        record.push((size / 0x1_0000_0000 % 256) as u8);
        record.push((size / 0x100_0000 % 256) as u8);
        record.push((size / 0x1_0000 % 256) as u8);
        record.push((size / 0x100 % 256) as u8);
        record.push((size % 256) as u8);
        assert(record@ =~= encode_node(self@));
        record
    }
}

/// The number that the first `count` bytes of `bytes` spell, most significant
/// first.
spec fn partial_value(bytes: Seq<u8>, count: nat) -> nat
    decreases count,
{
    if count == 0 {
        0
    } else {
        partial_value(bytes, (count - 1) as nat) * 256 + bytes[count - 1] as nat
    }
}

/// One less than 256 to the power `count`.
spec fn bound(count: nat) -> nat
    decreases count,
{
    if count == 0 {
        0
    } else {
        bound((count - 1) as nat) * 256 + 255
    }
}

proof fn lemma_bound(count: nat)
    requires
        count <= 8,
    ensures
        bound(count) <= u64::MAX,
        count < 8 ==> bound(count) * 256 + 255 <= u64::MAX,
{
    reveal_with_fuel(bound, 9);
}

proof fn lemma_partial_value(bytes: Seq<u8>)
    requires
        bytes.len() == 8,
    ensures
        partial_value(bytes, 8) == be_value(bytes),
{
    reveal_with_fuel(partial_value, 9);
}

} // verus!
