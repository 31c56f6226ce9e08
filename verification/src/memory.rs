//! The in-memory backend.

use random_access_memory::{RandomAccessMemory, RandomAccessMemoryMethods};
use random_access_storage::RandomAccess;
use vstd::prelude::*;

use crate::store::ByteStore;
use crate::store;

verus! {

#[verifier::external_type_specification]
#[verifier::external_body]
#[verifier::reject_recursive_types(T)]
pub struct ExRandomAccess<T>(RandomAccess<T>);

#[verifier::external_type_specification]
#[verifier::external_body]
pub struct ExRandomAccessMemoryMethods(RandomAccessMemoryMethods);

/// The bytes a paged memory store holds, from offset 0 up to its length.
pub uninterp spec fn memory_contents(store: RandomAccess<RandomAccessMemoryMethods>) -> Seq<u8>;

/// `RandomAccessMemory::default`: a store with one-mebibyte pages that holds
/// no bytes yet.
#[verifier::external_body]
fn memory_new() -> (s: RandomAccess<RandomAccessMemoryMethods>)
    ensures
        memory_contents(s) == Seq::<u8>::empty(),
{
    RandomAccessMemory::default()
}

/// `RandomAccess::write` on the memory backend. It always succeeds: the
/// length becomes the larger of the old length and the end of the write, the
/// written range holds `data`, pages are allocated zeroed so that a gap reads
/// as zero, and no other byte changes. The sum `offset + data.len()` is
/// computed unchecked, hence the bound.
#[verifier::external_body]
fn memory_write(
    s: &mut RandomAccess<RandomAccessMemoryMethods>,
    offset: usize,
    data: &[u8],
) -> (r: Result<(), failure::Error>)
    requires
        offset + data@.len() <= usize::MAX,
    ensures
        r is Ok,
        memory_contents(*final(s)) == store::write_bytes(
            memory_contents(*old(s)),
            offset as int,
            data@,
        ),
{
    s.write(offset, data)
}

/// `RandomAccess::read` on the memory backend. It fails exactly when the
/// range ends past the store's length, and otherwise returns the bytes of the
/// range; the contents stay as they are. The sum `offset + length` is
/// computed unchecked, hence the bound.
#[verifier::external_body]
fn memory_read(s: &mut RandomAccess<RandomAccessMemoryMethods>, offset: usize, length: usize) -> (r:
    Result<Vec<u8>, failure::Error>)
    requires
        offset + length <= usize::MAX,
    ensures
        memory_contents(*final(s)) == memory_contents(*old(s)),
        match r {
            Ok(bytes) => offset + length <= memory_contents(*old(s)).len() && bytes@
                == memory_contents(*old(s)).subrange(offset as int, offset + length),
            Err(_) => offset + length > memory_contents(*old(s)).len(),
        },
{
    s.read(offset, length)
}

/// A byte store held in memory. Nothing it holds outlives it.
pub struct MemoryStore {
    pages: RandomAccess<RandomAccessMemoryMethods>,
    length: usize,
}

impl MemoryStore {
    /// An empty store.
    pub fn new() -> (s: Self)
        ensures
            s.wf(),
            s@ == Seq::<u8>::empty(),
    {
        MemoryStore { pages: memory_new(), length: 0 }
    }
}

impl ByteStore for MemoryStore {
    closed spec fn view(&self) -> Seq<u8> {
        memory_contents(self.pages)
    }

    closed spec fn wf(&self) -> bool {
        self.length == memory_contents(self.pages).len()
    }

    open spec fn reliable() -> bool {
        true
    }

    fn len(&self) -> (n: usize) {
        self.length
    }

    fn read(&mut self, offset: usize, length: usize) -> (r: Result<Vec<u8>, failure::Error>) {
        memory_read(&mut self.pages, offset, length)
    }

    fn write(&mut self, offset: usize, data: &[u8]) -> (r: Result<(), failure::Error>) {
        let end = offset + data.len();
        let r = memory_write(&mut self.pages, offset, data);
        if end > self.length {
            self.length = end;
        }
        r
    }
}

} // verus!
