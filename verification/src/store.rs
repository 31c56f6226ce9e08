//! The byte-store abstraction every backend implements.

use vstd::prelude::*;

verus! {

/// The kinds of store a log keeps.
#[derive(Debug, Clone, Copy, PartialEq, Eq, Structural)]
pub enum Store {
    /// Nodes of the Merkle tree.
    Tree,
    /// Raw block payloads.
    Data,
    /// Presence bitfield.
    Bitfield,
    /// Signatures over the tree roots.
    Signatures,
}

/// The contents of a store after `data` has been written at `offset`.
///
/// The store grows to hold the write; bytes between the old end and `offset`
/// read as zero, and bytes outside the written range keep their value.
pub open spec fn write_bytes(contents: Seq<u8>, offset: int, data: Seq<u8>) -> Seq<u8> {
    let end = offset + data.len();
    let len = if end > contents.len() { end } else { contents.len() as int };
    Seq::new(
        len as nat,
        |i: int|
            if offset <= i < end {
                data[i - offset]
            } else if i < contents.len() {
                contents[i]
            } else {
                0u8
            },
    )
}

/// The bytes of the range that starts at `offset` and is `length` long, where
/// the store holds all of it.
pub open spec fn read_bytes(contents: Seq<u8>, offset: int, length: int) -> Option<Seq<u8>> {
    if 0 <= offset && 0 <= length && offset + length <= contents.len() {
        Some(contents.subrange(offset, offset + length))
    } else {
        None
    }
}

/// What was written is what is read back from the same place.
pub proof fn lemma_read_after_write(contents: Seq<u8>, offset: int, data: Seq<u8>)
    requires
        0 <= offset,
    ensures
        read_bytes(write_bytes(contents, offset, data), offset, data.len() as int) == Some(data),
{
    let after = write_bytes(contents, offset, data);
    assert(after.subrange(offset, offset + data.len()) =~= data);
}

/// A write changes nothing outside its range: a range that lies wholly before
/// it or wholly behind it, inside the old contents, reads as it did.
pub proof fn lemma_write_elsewhere(
    contents: Seq<u8>,
    offset: int,
    data: Seq<u8>,
    from: int,
    length: int,
)
    requires
        0 <= offset,
        0 <= from,
        0 <= length,
        from + length <= contents.len(),
        from + length <= offset || offset + data.len() <= from,
    ensures
        read_bytes(write_bytes(contents, offset, data), from, length) == read_bytes(
            contents,
            from,
            length,
        ),
{
    let after = write_bytes(contents, offset, data);
    assert(after.subrange(from, from + length) =~= contents.subrange(from, from + length));
}

/// A byte-addressed store: a growable array of bytes that is read and written
/// at arbitrary offsets.
///
/// Its view is the sequence of bytes it holds. A write either takes effect as
/// a whole or leaves the contents as they were.
///
/// A backend whose code is proved states its own `view`, `wf` and `reliable`,
/// and its `len`, `read` and `write` are held to the contracts below. A
/// backend whose code is not proved, such as a file on disk, leaves the three
/// as they stand here and answers for the contracts itself: whatever is
/// shown of an engine on such a backend holds as far as the backend keeps
/// them.
pub trait ByteStore: Sized {
    /// The bytes held, from offset 0 up to the store's length.
    ///
    /// The body given here is hidden and says nothing of any store.
    closed spec fn view(&self) -> Seq<u8> {
        arbitrary()
    }

    /// The store's own consistency condition.
    open spec fn wf(&self) -> bool {
        true
    }

    /// True of a backend that fails on no request it can serve: every write
    /// succeeds, and so does every read inside the store's length.
    open spec fn reliable() -> bool {
        false
    }

    /// The number of bytes held.
    fn len(&self) -> (n: usize)
        requires
            self.wf(),
        ensures
            n == self@.len(),
    ;

    /// Reads `length` bytes starting at `offset`.
    ///
    /// A range that reaches past the end of the store is an error.
    fn read(&mut self, offset: usize, length: usize) -> (r: Result<Vec<u8>, failure::Error>)
        requires
            old(self).wf(),
            offset + length <= usize::MAX,
        ensures
            final(self).wf(),
            final(self)@ == old(self)@,
            r matches Ok(bytes) ==> read_bytes(old(self)@, offset as int, length as int) == Some(
                bytes@,
            ),
            Self::reliable() && read_bytes(old(self)@, offset as int, length as int) is Some ==> r
                is Ok,
    ;

    /// Writes `data` starting at `offset`, growing the store as needed.
    fn write(&mut self, offset: usize, data: &[u8]) -> (r: Result<(), failure::Error>)
        requires
            old(self).wf(),
            offset + data@.len() <= usize::MAX,
        ensures
            final(self).wf(),
            r is Ok ==> final(self)@ == write_bytes(old(self)@, offset as int, data@),
            r is Err ==> final(self)@ == old(self)@,
            Self::reliable() ==> r is Ok,
    ;
}

} // verus!
