//! The storage engine: four byte stores and the key pair of one log.

use vstd::prelude::*;

use crate::error::StorageError;
use crate::header;
use crate::header::HEADER_OFFSET;
use crate::keys;
use crate::keys::{KeyPair, PublicKey, SecretKey};
use crate::memory::MemoryStore;
use crate::node;
use crate::node::{Node, NodeView, NODE_SIZE};
use crate::resolver;
use crate::store;
use crate::store::{ByteStore, Store};

verus! {

/// The storage engine of one log. It owns its four stores for as long as it
/// lives; no store is shared with another engine.
pub struct Storage<T: ByteStore> {
    public_key: PublicKey,
    secret_key: SecretKey,
    tree: T,
    data: T,
    bitfield: T,
    signatures: T,
}

/// Number of bytes a signature record takes.
pub const SIGNATURE_SIZE: usize = 64;

/// Byte offset of the node record at position `index` of the tree store.
pub open spec fn node_offset(index: nat) -> nat {
    32 + 40 * index
}

/// Byte offset of the signature record number `index`.
pub open spec fn signature_offset(index: nat) -> nat {
    32 + 64 * index
}

/// The tree store after `node` has been put at position `index`.
pub open spec fn tree_after_put(tree: Seq<u8>, index: nat, node: NodeView) -> Seq<u8> {
    store::write_bytes(tree, node_offset(index) as int, node::encode_node(node))
}

/// The node that the tree store holds at position `index`, if its record
/// lies inside the store.
pub open spec fn node_in(tree: Seq<u8>, index: nat) -> Option<NodeView> {
    match store::read_bytes(tree, node_offset(index) as int, 40) {
        Some(record) => node::decode_node(index, record),
        None => None,
    }
}

/// The index at which the next signature is appended to a signature store of
/// `length` bytes: the first record that begins at or behind the store's end.
pub open spec fn next_signature_spec(length: nat) -> nat {
    if length <= 32 {
        0
    } else {
        ((length - 32 + 63) / 64) as nat
    }
}

/// Whether `e` is a failure of the backend of `kind`, met at byte `offset`
/// while serving position `index`.
pub open spec fn backend_failed(e: StorageError, kind: Store, offset: int, index: int) -> bool {
    e matches StorageError::BackendFailure { store, offset: o, index: i, .. } && store == kind && o
        == offset && i == index
}

/// A node that was put at a position is the node that is got from it: with
/// the position it was put at, and the hash and size it had.
pub proof fn lemma_get_after_put(tree: Seq<u8>, index: nat, node: NodeView)
    requires
        node.valid(),
    ensures
        node_in(tree_after_put(tree, index, node), index) == Some(
            NodeView { index, hash: node.hash, size: node.size },
        ),
{
    let placed = NodeView { index, hash: node.hash, size: node.size };
    node::lemma_decode_encode(placed);
    store::lemma_read_after_write(tree, node_offset(index) as int, node::encode_node(node));
}

/// Putting a node leaves the nodes at all other positions as they were.
pub proof fn lemma_put_keeps_others(tree: Seq<u8>, index: nat, node: NodeView, other: nat)
    requires
        node.valid(),
        other != index,
        node_in(tree, other) is Some,
    ensures
        node_in(tree_after_put(tree, index, node), other) == node_in(tree, other),
{
    node::lemma_decode_encode(node);
    store::lemma_write_elsewhere(
        tree,
        node_offset(index) as int,
        node::encode_node(node),
        node_offset(other) as int,
        40,
    );
}

/// After a signature has been put at `index`, the next signature follows the
/// last record of the store: the one just put, or one that lay behind it.
pub proof fn lemma_next_signature_after_put(length: nat, index: nat)
    ensures
        ({
            let end = signature_offset(index) + 64;
            let after = if end > length { end } else { length };
            next_signature_spec(after) == if next_signature_spec(length) > index {
                next_signature_spec(length)
            } else {
                index + 1
            }
        }),
{
}

/// A write behind the header leaves the header in place.
pub proof fn lemma_header_kept(contents: Seq<u8>, kind: Store, offset: int, data: Seq<u8>)
    requires
        header::header_intact(contents, kind),
        offset >= 32,
    ensures
        header::header_intact(store::write_bytes(contents, offset, data), kind),
{
    header::lemma_header_length(kind);
    let length = header::header_bytes(kind).len() as int;
    store::lemma_write_elsewhere(contents, offset, data, 0, length);
}

/// Writes to the store of `kind` and tells a failure of the backend with the
/// place it was met at.
fn write_to<T: ByteStore>(store: &mut T, kind: Store, offset: usize, data: &[u8], index: usize) -> (r:
    Result<(), StorageError>)
    requires
        old(store).wf(),
        offset + data@.len() <= usize::MAX,
    ensures
        final(store).wf(),
        match r {
            Ok(()) => final(store)@ == store::write_bytes(old(store)@, offset as int, data@),
            Err(e) => backend_failed(e, kind, offset as int, index as int) && !T::reliable()
                && final(store)@ == old(store)@,
        },
{
    match store.write(offset, data) {
        Ok(()) => Ok(()),
        Err(cause) => Err(StorageError::BackendFailure { store: kind, offset, index, cause }),
    }
}

/// Reads from the store of `kind` and tells a failure of the backend with the
/// place it was met at.
fn read_from<T: ByteStore>(
    store: &mut T,
    kind: Store,
    offset: usize,
    length: usize,
    index: usize,
) -> (r: Result<Vec<u8>, StorageError>)
    requires
        old(store).wf(),
        offset + length <= usize::MAX,
    ensures
        final(store).wf(),
        final(store)@ == old(store)@,
        match r {
            Ok(bytes) => store::read_bytes(old(store)@, offset as int, length as int) == Some(
                bytes@,
            ),
            Err(e) => backend_failed(e, kind, offset as int, index as int) && (T::reliable()
                ==> store::read_bytes(old(store)@, offset as int, length as int) is None),
        },
{
    match store.read(offset, length) {
        Ok(bytes) => Ok(bytes),
        Err(cause) => Err(StorageError::BackendFailure { store: kind, offset, index, cause }),
    }
}

/// The first store, in the order in which an engine opens them (bitfield,
/// signatures, tree), that holds bytes but not its header.
pub open spec fn first_refused(tree: Seq<u8>, bitfield: Seq<u8>, signatures: Seq<u8>) -> Option<
    Store,
> {
    if header::opened(bitfield, Store::Bitfield) is None {
        Some(Store::Bitfield)
    } else if header::opened(signatures, Store::Signatures) is None {
        Some(Store::Signatures)
    } else if header::opened(tree, Store::Tree) is None {
        Some(Store::Tree)
    } else {
        None
    }
}

impl<T: ByteStore> Storage<T> {
    /// The bytes of the tree store.
    pub closed spec fn tree_bytes(&self) -> Seq<u8> {
        self.tree@
    }

    /// The bytes of the data store.
    pub closed spec fn data_bytes(&self) -> Seq<u8> {
        self.data@
    }

    /// The bytes of the bitfield store.
    pub closed spec fn bitfield_bytes(&self) -> Seq<u8> {
        self.bitfield@
    }

    /// The bytes of the signature store.
    pub closed spec fn signature_bytes(&self) -> Seq<u8> {
        self.signatures@
    }

    /// The key pair the engine was built with.
    pub closed spec fn identity(&self) -> (Seq<u8>, Seq<u8>) {
        (self.public_key@, self.secret_key@)
    }

    /// Each of the four stores is consistent in itself.
    pub closed spec fn stores_wf(&self) -> bool {
        self.tree.wf() && self.data.wf() && self.bitfield.wf() && self.signatures.wf()
    }

    /// An open engine: its stores are consistent, and the tree, bitfield and
    /// signature stores begin with their headers.
    pub open spec fn wf(&self) -> bool {
        &&& self.stores_wf()
        &&& header::header_intact(self.tree_bytes(), Store::Tree)
        &&& header::header_intact(self.bitfield_bytes(), Store::Bitfield)
        &&& header::header_intact(self.signature_bytes(), Store::Signatures)
    }

    /// How the outcome `r` of opening an engine relates to the key pair and
    /// the four stores it was opened on.
    pub open spec fn opens_to(
        r: Result<Self, StorageError>,
        key_pair: KeyPair,
        tree: T,
        data: T,
        bitfield: T,
        signatures: T,
    ) -> bool {
        &&& match r {
            Ok(engine) => {
                &&& engine.wf()
                &&& engine.identity() == (key_pair.public_key@, key_pair.secret_key@)
                &&& header::opened(tree@, Store::Tree) == Some(engine.tree_bytes())
                &&& engine.data_bytes() == data@
                &&& header::opened(bitfield@, Store::Bitfield) == Some(engine.bitfield_bytes())
                &&& header::opened(signatures@, Store::Signatures) == Some(
                    engine.signature_bytes(),
                )
            },
            Err(StorageError::FormatMismatch { store }) => first_refused(
                tree@,
                bitfield@,
                signatures@,
            ) == Some(store),
            Err(StorageError::BackendFailure { store, offset, index, .. }) => {
                &&& !T::reliable()
                &&& store != Store::Data
                &&& offset == 0
                &&& index == 0
            },
            Err(_) => false,
        }
        &&& T::reliable() ==> (r is Ok <==> first_refused(tree@, bitfield@, signatures@) is None)
    }

    /// Opens an engine on four stores: each store but the data store gets its
    /// header if it is empty, and has its header checked if it is not.
    ///
    /// On failure the stores are dropped; no half-open engine is handed out.
    pub fn open(key_pair: KeyPair, tree: T, data: T, bitfield: T, signatures: T) -> (r: Result<
        Self,
        StorageError,
    >)
        requires
            tree.wf(),
            data.wf(),
            bitfield.wf(),
            signatures.wf(),
        ensures
            Self::opens_to(r, key_pair, tree, data, bitfield, signatures),
    {
        let mut instance = Storage {
            public_key: key_pair.public_key,
            secret_key: key_pair.secret_key,
            tree,
            data,
            bitfield,
            signatures,
        };
        match header::open_store(&mut instance.bitfield, Store::Bitfield) {
            Ok(()) => {},
            Err(e) => {
                return Err(e);
            },
        }
        match header::open_store(&mut instance.signatures, Store::Signatures) {
            Ok(()) => {},
            Err(e) => {
                return Err(e);
            },
        }
        match header::open_store(&mut instance.tree, Store::Tree) {
            Ok(()) => {},
            Err(e) => {
                return Err(e);
            },
        }
        proof {
            header::lemma_opened_intact(bitfield@, Store::Bitfield);
            header::lemma_opened_intact(signatures@, Store::Signatures);
            header::lemma_opened_intact(tree@, Store::Tree);
        }
        Ok(instance)
    }

    /// Builds an engine from a key pair and a callback that makes the store
    /// of each kind.
    ///
    /// The stores are made in the order tree, data, bitfield, signatures, and
    /// the engine is opened on them as [`Storage::open`] describes.
    pub fn with_storage<Cb>(key_pair: KeyPair, create: Cb) -> (r: Result<Self, StorageError>) where
        Cb: Fn(Store) -> T,

        requires
            forall|kind: Store| call_requires(create, (kind,)),
            forall|kind: Store, made: T| call_ensures(create, (kind,), made) ==> made.wf(),
        ensures
            exists|tree: T, data: T, bitfield: T, signatures: T|
                {
                    &&& call_ensures(create, (Store::Tree,), tree)
                    &&& call_ensures(create, (Store::Data,), data)
                    &&& call_ensures(create, (Store::Bitfield,), bitfield)
                    &&& call_ensures(create, (Store::Signatures,), signatures)
                    &&& #[trigger] Self::opens_to(r, key_pair, tree, data, bitfield, signatures)
                },
    {
        let tree = create(Store::Tree);
        let data = create(Store::Data);
        let bitfield = create(Store::Bitfield);
        let signatures = create(Store::Signatures);
        let ghost stores = (tree, data, bitfield, signatures);
        let r = Self::open(key_pair, tree, data, bitfield, signatures);
        assert(Self::opens_to(r, key_pair, stores.0, stores.1, stores.2, stores.3));
        r
    }

    /// Whether `self` holds the key pair of `before` and, in every store but
    /// the one of kind `touched`, the bytes of `before`.
    pub open spec fn differs_only_in(&self, before: &Self, touched: Store) -> bool {
        &&& self.identity() == before.identity()
        &&& touched != Store::Tree ==> self.tree_bytes() == before.tree_bytes()
        &&& touched != Store::Data ==> self.data_bytes() == before.data_bytes()
        &&& touched != Store::Bitfield ==> self.bitfield_bytes() == before.bitfield_bytes()
        &&& touched != Store::Signatures ==> self.signature_bytes() == before.signature_bytes()
    }

    /// Whether `self` holds the key pair of `before` and the bytes of `before`
    /// in every store.
    pub open spec fn same_as(&self, before: &Self) -> bool {
        &&& self.identity() == before.identity()
        &&& self.tree_bytes() == before.tree_bytes()
        &&& self.data_bytes() == before.data_bytes()
        &&& self.bitfield_bytes() == before.bitfield_bytes()
        &&& self.signature_bytes() == before.signature_bytes()
    }

    /// Writes a block's payload into the data store, at the place the cached
    /// nodes give for it.
    ///
    /// An empty payload is accepted and nothing is written. Otherwise the
    /// block is placed as [`resolver::resolve_spec`] says; a payload whose
    /// length is not the length found there is refused, and the data store is
    /// left as it was.
    pub fn put_data(&mut self, index: usize, data: &[u8], nodes: &[Node]) -> (r: Result<
        (),
        StorageError,
    >)
        requires
            old(self).wf(),
            data@.len() > 0 ==> 2 * index <= usize::MAX,
        ensures
            final(self).wf(),
            final(self).differs_only_in(old(self), Store::Data),
            data@.len() == 0 ==> r is Ok && final(self).data_bytes() == old(self).data_bytes(),
            data@.len() > 0 ==> match resolver::resolve_spec(index as nat, resolver::views(nodes@)) {
                Err(e) => r == Err::<(), StorageError>(e) && final(self).data_bytes() == old(
                    self,
                ).data_bytes(),
                Ok((offset, size)) => if size != data@.len() {
                    &&& r == Err::<(), StorageError>(
                        StorageError::SizeMismatch { expected: size, actual: data@.len() as usize },
                    )
                    &&& final(self).data_bytes() == old(self).data_bytes()
                } else {
                    match r {
                        Ok(()) => {
                            &&& final(self).data_bytes() == store::write_bytes(
                                old(self).data_bytes(),
                                offset as int,
                                data@,
                            )
                            &&& store::read_bytes(
                                final(self).data_bytes(),
                                offset as int,
                                size as int,
                            ) == Some(data@)
                        },
                        Err(e) => backend_failed(e, Store::Data, offset as int, index as int)
                            && !T::reliable() && final(self).data_bytes() == old(
                            self,
                        ).data_bytes(),
                    }
                },
            },
    {
        if data.len() == 0 {
            return Ok(());
        }
        let (offset, size) = match self.data_offset(index, nodes) {
            Ok(place) => place,
            Err(e) => {
                return Err(e);
            },
        };
        if size != data.len() {
            return Err(StorageError::SizeMismatch { expected: size, actual: data.len() });
        }
        proof {
            store::lemma_read_after_write(self.data@, offset as int, data@);
        }
        write_to(&mut self.data, Store::Data, offset, data, index)
    }

    /// Reads a block's payload from the data store, from the place the
    /// cached nodes give for it.
    ///
    /// A block of length zero is answered at once, without reading.
    pub fn get_data(&mut self, index: usize, nodes: &[Node]) -> (r: Result<Vec<u8>, StorageError>)
        requires
            old(self).wf(),
            2 * index <= usize::MAX,
        ensures
            final(self).wf(),
            final(self).same_as(old(self)),
            match resolver::resolve_spec(index as nat, resolver::views(nodes@)) {
                Err(e) => r == Err::<Vec<u8>, StorageError>(e),
                Ok((offset, size)) => if size == 0 {
                    r matches Ok(bytes) && bytes@.len() == 0
                } else {
                    match r {
                        Ok(bytes) => store::read_bytes(
                            old(self).data_bytes(),
                            offset as int,
                            size as int,
                        ) == Some(bytes@),
                        Err(e) => {
                            &&& backend_failed(e, Store::Data, offset as int, index as int)
                            &&& T::reliable() ==> store::read_bytes(
                                old(self).data_bytes(),
                                offset as int,
                                size as int,
                            ) is None
                        },
                    }
                },
            },
    {
        let (offset, size) = match self.data_offset(index, nodes) {
            Ok(place) => place,
            Err(e) => {
                return Err(e);
            },
        };
        if size == 0 {
            return Ok(Vec::new());
        }
        read_from(&mut self.data, Store::Data, offset, size, index)
    }

    /// The index at which the next signature is appended.
    pub fn next_signature(&mut self) -> (next: usize)
        requires
            old(self).wf(),
        ensures
            final(self).wf(),
            final(self).same_as(old(self)),
            next == next_signature_spec(old(self).signature_bytes().len()),
            signature_offset(next as nat) >= old(self).signature_bytes().len(),
            next > 0 ==> signature_offset((next - 1) as nat) < old(self).signature_bytes().len(),
    {
        let length = self.signatures.len();
        proof {
            header::lemma_header_length(Store::Signatures);
        }
        let behind = length - HEADER_OFFSET;
        if behind % SIGNATURE_SIZE == 0 {
            behind / SIGNATURE_SIZE
        } else {
            behind / SIGNATURE_SIZE + 1
        }
    }

    /// Reads the signature record number `index`.
    pub fn get_signature(&mut self, index: usize) -> (r: Result<Vec<u8>, StorageError>)
        requires
            old(self).wf(),
            signature_offset(index as nat) + 64 <= usize::MAX,
        ensures
            final(self).wf(),
            final(self).same_as(old(self)),
            match r {
                Ok(signature) => store::read_bytes(
                    old(self).signature_bytes(),
                    signature_offset(index as nat) as int,
                    64,
                ) == Some(signature@),
                Err(e) => {
                    &&& backend_failed(
                        e,
                        Store::Signatures,
                        signature_offset(index as nat) as int,
                        index as int,
                    )
                    &&& T::reliable() ==> store::read_bytes(
                        old(self).signature_bytes(),
                        signature_offset(index as nat) as int,
                        64,
                    ) is None
                },
            },
    {
        read_from(
            &mut self.signatures,
            Store::Signatures,
            HEADER_OFFSET + SIGNATURE_SIZE * index,
            SIGNATURE_SIZE,
            index,
        )
    }

    /// Writes the signature record number `index`. A signature that is not
    /// 64 bytes long is refused as corrupt, and nothing is written.
    pub fn put_signature(&mut self, index: usize, signature: &[u8]) -> (r: Result<
        (),
        StorageError,
    >)
        requires
            old(self).wf(),
            signature_offset(index as nat) + 64 <= usize::MAX,
        ensures
            final(self).wf(),
            final(self).differs_only_in(old(self), Store::Signatures),
            match r {
                Ok(()) => {
                    &&& signature@.len() == 64
                    &&& final(self).signature_bytes() == store::write_bytes(
                        old(self).signature_bytes(),
                        signature_offset(index as nat) as int,
                        signature@,
                    )
                    &&& store::read_bytes(
                        final(self).signature_bytes(),
                        signature_offset(index as nat) as int,
                        64,
                    ) == Some(signature@)
                    &&& next_signature_spec(final(self).signature_bytes().len())
                        == if next_signature_spec(old(self).signature_bytes().len()) > index {
                        next_signature_spec(old(self).signature_bytes().len())
                    } else {
                        (index + 1) as nat
                    }
                },
                Err(StorageError::Corrupt { store, index: at }) => {
                    &&& store == Store::Signatures
                    &&& at == index
                    &&& signature@.len() != 64
                    &&& final(self).signature_bytes() == old(self).signature_bytes()
                },
                Err(e) => {
                    &&& signature@.len() == 64
                    &&& backend_failed(
                        e,
                        Store::Signatures,
                        signature_offset(index as nat) as int,
                        index as int,
                    )
                    &&& !T::reliable()
                    &&& final(self).signature_bytes() == old(self).signature_bytes()
                },
            },
    {
        if signature.len() != SIGNATURE_SIZE {
            return Err(StorageError::Corrupt { store: Store::Signatures, index });
        }
        let offset = HEADER_OFFSET + SIGNATURE_SIZE * index;
        proof {
            lemma_header_kept(self.signatures@, Store::Signatures, offset as int, signature@);
            store::lemma_read_after_write(self.signatures@, offset as int, signature@);
            lemma_next_signature_after_put(self.signatures@.len(), index as nat);
        }
        write_to(&mut self.signatures, Store::Signatures, offset, signature, index)
    }

    /// Offset and length of block `index` in the data store, from the cached
    /// nodes alone: `(offset, size)`.
    ///
    /// The offset is the sum of the sizes cached for the full roots left of
    /// the block, and the size is the one cached for the block's leaf. No
    /// store is read.
    pub fn data_offset(&mut self, index: usize, cached_nodes: &[Node]) -> (r: Result<
        (usize, usize),
        StorageError,
    >)
        requires
            2 * index <= usize::MAX,
        ensures
            *final(self) == *old(self),
            r == resolver::resolve_spec(index as nat, resolver::views(cached_nodes@)),
            r matches Ok((offset, size)) ==> offset + size <= usize::MAX,
    {
        resolver::resolve_offset(index, cached_nodes)
    }

    /// Reads the node at position `index` of the tree store.
    pub fn get_node(&mut self, index: usize) -> (r: Result<Node, StorageError>)
        requires
            old(self).wf(),
            node_offset(index as nat) + 40 <= usize::MAX,
        ensures
            final(self).wf(),
            final(self).same_as(old(self)),
            match r {
                Ok(node) => node_in(old(self).tree_bytes(), index as nat) == Some(node@),
                Err(e) => {
                    &&& backend_failed(
                        e,
                        Store::Tree,
                        node_offset(index as nat) as int,
                        index as int,
                    )
                    &&& T::reliable() ==> node_in(old(self).tree_bytes(), index as nat) is None
                },
            },
    {
        let buf = match read_from(
            &mut self.tree,
            Store::Tree,
            HEADER_OFFSET + NODE_SIZE * index,
            NODE_SIZE,
            index,
        ) {
            Ok(buf) => buf,
            Err(e) => {
                return Err(e);
            },
        };
        Node::from_vec(index, buf.as_slice())
    }

    /// Writes `node` at position `index` of the tree store.
    pub fn put_node(&mut self, index: usize, node: &mut Node) -> (r: Result<(), StorageError>)
        requires
            old(self).wf(),
            node_offset(index as nat) + 40 <= usize::MAX,
        ensures
            final(self).wf(),
            final(self).differs_only_in(old(self), Store::Tree),
            *final(node) == *old(node),
            match r {
                Ok(()) => {
                    &&& final(self).tree_bytes() == tree_after_put(
                        old(self).tree_bytes(),
                        index as nat,
                        old(node)@,
                    )
                    &&& node_in(final(self).tree_bytes(), index as nat) == Some(
                        NodeView { index: index as nat, hash: old(node)@.hash, size: old(node)@.size },
                    )
                },
                Err(e) => {
                    &&& backend_failed(
                        e,
                        Store::Tree,
                        node_offset(index as nat) as int,
                        index as int,
                    )
                    &&& !T::reliable()
                    &&& final(self).tree_bytes() == old(self).tree_bytes()
                },
            },
    {
        let buf = node.to_vec();
        let offset = HEADER_OFFSET + NODE_SIZE * index;
        proof {
            lemma_header_kept(self.tree@, Store::Tree, offset as int, buf@);
            node.lemma_valid();
            lemma_get_after_put(self.tree@, index as nat, node@);
        }
        write_to(&mut self.tree, Store::Tree, offset, buf.as_slice(), index)
    }

    /// Writes raw bytes into the bitfield store, `offset` bytes behind its
    /// header. The bytes are not looked at.
    pub fn put_bitfield(&mut self, offset: usize, data: &[u8]) -> (r: Result<(), StorageError>)
        requires
            old(self).wf(),
            32 + offset + data@.len() <= usize::MAX,
        ensures
            final(self).wf(),
            final(self).differs_only_in(old(self), Store::Bitfield),
            match r {
                Ok(()) => final(self).bitfield_bytes() == store::write_bytes(
                    old(self).bitfield_bytes(),
                    32 + offset,
                    data@,
                ),
                Err(e) => {
                    &&& backend_failed(e, Store::Bitfield, 32 + offset, offset as int)
                    &&& !T::reliable()
                    &&& final(self).bitfield_bytes() == old(self).bitfield_bytes()
                },
            },
    {
        proof {
            lemma_header_kept(self.bitfield@, Store::Bitfield, 32 + offset, data@);
        }
        write_to(&mut self.bitfield, Store::Bitfield, HEADER_OFFSET + offset, data, offset)
    }

    /// The public key the log is known by.
    pub fn open_key(&mut self) -> (key: PublicKey)
        ensures
            *final(self) == *old(self),
            key@ == old(self).identity().0,
    {
        self.public_key
    }

    /// The secret key the log's growth is signed with.
    pub fn secret_key(&self) -> (key: SecretKey)
        ensures
            key@ == self.identity().1,
    {
        self.secret_key
    }
}

impl Default for Storage<MemoryStore> {
    /// An engine on fresh memory stores, with a key pair made for the
    /// occasion. Nothing of it outlives the process.
    fn default() -> (engine: Self)
        ensures
            engine.wf(),
            engine.tree_bytes() == header::header_bytes(Store::Tree),
            engine.data_bytes() == Seq::<u8>::empty(),
            engine.bitfield_bytes() == header::header_bytes(Store::Bitfield),
            engine.signature_bytes() == header::header_bytes(Store::Signatures),
    {
        let key_pair = keys::generate_key_pair();
        let create = |_store: Store| -> (made: MemoryStore)
            ensures
                made.wf(),
                made@ == Seq::<u8>::empty(),
            { MemoryStore::new() };
        Self::with_storage(key_pair, create).unwrap()
    }
}

} // verus!
