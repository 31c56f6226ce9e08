//! The 32-byte header that opens every store except the data store.

use vstd::prelude::*;

use crate::error::StorageError;
use crate::store;
use crate::store::{ByteStore, Store};

verus! {

/// Number of bytes a header takes.
pub const HEADER_OFFSET: usize = 32;

/// A header as it lies on disk: three magic bytes, the file type, the format
/// version (zero), the entry size as a big-endian 16-bit number, the name of
/// the algorithm behind a length byte, and zeros up to 32 bytes.
pub open spec fn header_layout(file_type: u8, entry_size: nat, algorithm: Seq<u8>) -> Seq<u8> {
    seq![
        5u8,
        2u8,
        87u8,
        file_type,
        0u8,
        (entry_size / 256) as u8,
        (entry_size % 256) as u8,
        algorithm.len() as u8,
    ] + algorithm + Seq::new((24 - algorithm.len()) as nat, |i: int| 0u8)
}

/// The header of each kind of store. The data store has none.
pub open spec fn header_bytes(kind: Store) -> Seq<u8> {
    match kind {
        // "BLAKE2b"
        Store::Tree => header_layout(2, 40, seq![66u8, 76u8, 65u8, 75u8, 69u8, 50u8, 98u8]),
        // "Ed25519"
        Store::Signatures => header_layout(1, 64, seq![69u8, 100u8, 50u8, 53u8, 53u8, 49u8, 57u8]),
        Store::Bitfield => header_layout(0, 3328, Seq::empty()),
        Store::Data => Seq::empty(),
    }
}

/// Whether `contents` begins with the header of `kind`.
pub open spec fn header_intact(contents: Seq<u8>, kind: Store) -> bool {
    let header = header_bytes(kind);
    contents.len() >= header.len() && contents.subrange(0, header.len() as int) == header
}

/// What opening a store of `kind` that holds `contents` leaves in it: an empty
/// store receives the header, a store that begins with the header is kept as
/// it is, and any other store is refused.
pub open spec fn opened(contents: Seq<u8>, kind: Store) -> Option<Seq<u8>> {
    if contents.len() == 0 {
        Some(header_bytes(kind))
    } else if header_intact(contents, kind) {
        Some(contents)
    } else {
        None
    }
}

/// A store that was opened begins with its header.
pub proof fn lemma_opened_intact(contents: Seq<u8>, kind: Store)
    ensures
        opened(contents, kind) matches Some(after) ==> header_intact(after, kind),
{
    let header = header_bytes(kind);
    assert(header.subrange(0, header.len() as int) == header);
}

/// A store that was opened opens again, and is left as it is.
pub proof fn lemma_reopen(contents: Seq<u8>, kind: Store)
    ensures
        opened(contents, kind) matches Some(after) ==> opened(after, kind) == Some(after),
{
    lemma_header_length(kind);
    lemma_opened_intact(contents, kind);
}

/// Every header is 32 bytes long, but for the data store, which has none.
pub proof fn lemma_header_length(kind: Store)
    ensures
        header_bytes(kind).len() == if kind == Store::Data { 0nat } else { 32nat },
{
}

/// `sleep_parser::create_tree` and `Header::to_vec` on its result. The vector
/// is filled up to its capacity, which is at least 32, so it begins with the
/// 32 bytes of the tree header.
#[verifier::external_body]
fn tree_header() -> (bytes: Vec<u8>)
    ensures
        bytes@.len() >= 32,
        bytes@.subrange(0, 32) == header_bytes(Store::Tree),
{
    sleep_parser::create_tree().to_vec()
}

/// `sleep_parser::create_signatures` and `Header::to_vec` on its result. The
/// vector is filled up to its capacity, which is at least 32, so it begins
/// with the 32 bytes of the signatures header.
#[verifier::external_body]
fn signatures_header() -> (bytes: Vec<u8>)
    ensures
        bytes@.len() >= 32,
        bytes@.subrange(0, 32) == header_bytes(Store::Signatures),
{
    sleep_parser::create_signatures().to_vec()
}

/// `sleep_parser::create_bitfield` and `Header::to_vec` on its result. The
/// vector is filled up to its capacity, which is at least 32, so it begins
/// with the 32 bytes of the bitfield header.
#[verifier::external_body]
fn bitfield_header() -> (bytes: Vec<u8>)
    ensures
        bytes@.len() >= 32,
        bytes@.subrange(0, 32) == header_bytes(Store::Bitfield),
{
    sleep_parser::create_bitfield().to_vec()
}

/// The header of `kind`, ready to be written.
pub fn header_for(kind: Store) -> (bytes: Vec<u8>)
    ensures
        bytes@ == header_bytes(kind),
{
    let mut bytes = match kind {
        Store::Tree => tree_header(),
        Store::Signatures => signatures_header(),
        Store::Bitfield => bitfield_header(),
        Store::Data => Vec::new(),
    };
    bytes.truncate(HEADER_OFFSET);
    proof {
        lemma_header_length(kind);
    }
    bytes
}

/// Whether two byte strings are the same.
fn same_bytes(a: &[u8], b: &[u8]) -> (same: bool)
    ensures
        same == (a@ == b@),
{
    if a.len() != b.len() {
        return false;
    }
    let mut i: usize = 0;
    while i < a.len()
        invariant
            i <= a.len(),
            a.len() == b.len(),
            forall|j: int| 0 <= j < i ==> a@[j] == b@[j],
        decreases a.len() - i,
    {
        if a[i] != b[i] {
            return false;
        }
        i += 1;
    }
    assert(a@ =~= b@);
    true
}

/// Opens a store of the given kind: writes the header into an empty store,
/// and checks the header of a store that already holds bytes.
pub fn open_store<T: ByteStore>(store: &mut T, kind: Store) -> (r: Result<(), StorageError>)
    requires
        old(store).wf(),
    ensures
        final(store).wf(),
        match r {
            Ok(()) => opened(old(store)@, kind) == Some(final(store)@),
            Err(StorageError::FormatMismatch { store: refused }) => refused == kind && opened(
                old(store)@,
                kind,
            ) is None && final(store)@ == old(store)@,
            Err(StorageError::BackendFailure { store: failed, offset, index, .. }) => failed
                == kind && offset == 0 && index == 0 && !T::reliable() && final(store)@ == old(
                store,
            )@,
            Err(_) => false,
        },
        T::reliable() ==> (r is Ok <==> opened(old(store)@, kind) is Some),
{
    let header = header_for(kind);
    proof {
        lemma_header_length(kind);
    }
    let len = store.len();
    if header.len() == 0 {
        assert(old(store)@.subrange(0, 0) =~= header@);
        if len == 0 {
            assert(old(store)@ =~= header@);
        }
        return Ok(());
    }
    if len == 0 {
        match store.write(0, header.as_slice()) {
            Ok(()) => {
                assert(store@ =~= header@);
                Ok(())
            },
            Err(cause) => Err(StorageError::BackendFailure { store: kind, offset: 0, index: 0, cause }),
        }
    } else if len < HEADER_OFFSET {
        Err(StorageError::FormatMismatch { store: kind })
    } else {
        match store.read(0, HEADER_OFFSET) {
            Ok(found) => {
                if same_bytes(found.as_slice(), header.as_slice()) {
                    Ok(())
                } else {
                    Err(StorageError::FormatMismatch { store: kind })
                }
            },
            Err(cause) => Err(StorageError::BackendFailure { store: kind, offset: 0, index: 0, cause }),
        }
    }
}

} // verus!
