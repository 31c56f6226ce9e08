use hypercore_storage::{
    ByteStore, KeyPair, MemoryStore, Node, PublicKey, SecretKey, Storage, StorageError, Store,
};

/// A store that serves a set number of requests and then fails all others.
struct Flaky {
    inner: MemoryStore,
    left: usize,
}

impl Flaky {
    fn new(left: usize) -> Self {
        Flaky { inner: MemoryStore::new(), left }
    }

    fn spend(&mut self) -> Result<(), failure::Error> {
        if self.left == 0 {
            return Err(failure::err_msg("worn out"));
        }
        self.left -= 1;
        Ok(())
    }
}

impl ByteStore for Flaky {
    fn len(&self) -> usize {
        self.inner.len()
    }

    fn read(&mut self, offset: usize, length: usize) -> Result<Vec<u8>, failure::Error> {
        self.spend()?;
        self.inner.read(offset, length)
    }

    fn write(&mut self, offset: usize, data: &[u8]) -> Result<(), failure::Error> {
        self.spend()?;
        self.inner.write(offset, data)
    }
}

fn key_pair() -> KeyPair {
    KeyPair {
        public_key: PublicKey::from_bytes([1; 32]),
        secret_key: SecretKey::from_bytes([2; 32]),
    }
}

#[test]
fn failed_header_write_fails_the_construction() {
    let r = Storage::with_storage(key_pair(), |kind: Store| {
        Flaky::new(if kind == Store::Signatures { 0 } else { 9 })
    });
    assert!(matches!(
        r,
        Err(StorageError::BackendFailure { store: Store::Signatures, offset: 0, index: 0, .. })
    ));
}

#[test]
fn failed_write_is_passed_on_with_its_place() {
    let mut storage = Storage::with_storage(key_pair(), |_kind: Store| Flaky::new(1)).unwrap();
    let r = storage.put_node(3, &mut Node::new(3, [0; 32], 1));
    match r {
        Err(StorageError::BackendFailure { store, offset, index, cause }) => {
            assert_eq!(store, Store::Tree);
            assert_eq!(offset, 32 + 40 * 3);
            assert_eq!(index, 3);
            assert_eq!(format!("{}", cause), "worn out");
        }
        _ => panic!("the write should have failed"),
    }
    let r = storage.put_signature(2, &[0; 64]);
    assert!(matches!(
        r,
        Err(StorageError::BackendFailure { store: Store::Signatures, offset: 160, index: 2, .. })
    ));
    let r = storage.put_bitfield(5, &[1]);
    assert!(matches!(
        r,
        Err(StorageError::BackendFailure { store: Store::Bitfield, offset: 37, index: 5, .. })
    ));
}

#[test]
fn failed_data_write_is_passed_on_with_its_place() {
    let mut storage = Storage::with_storage(key_pair(), |kind: Store| {
        Flaky::new(if kind == Store::Data { 0 } else { 1 })
    })
    .unwrap();
    let nodes = [Node::new(0, [0; 32], 4), Node::new(2, [0; 32], 2)];
    let r = storage.put_data(1, b"xy", &nodes);
    assert!(matches!(
        r,
        Err(StorageError::BackendFailure { store: Store::Data, offset: 4, index: 1, .. })
    ));
    let r = storage.get_data(1, &nodes);
    assert!(matches!(
        r,
        Err(StorageError::BackendFailure { store: Store::Data, offset: 4, index: 1, .. })
    ));
}
