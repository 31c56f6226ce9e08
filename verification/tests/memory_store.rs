use hypercore_storage::header::open_store;
use hypercore_storage::{ByteStore, MemoryStore, StorageError, Store};

const TREE_HEADER: [u8; 32] = [
    5, 2, 87, 2, 0, 0, 40, 7, b'B', b'L', b'A', b'K', b'E', b'2', b'b', 0, 0, 0, 0, 0, 0, 0, 0, 0,
    0, 0, 0, 0, 0, 0, 0, 0,
];

const SIGNATURES_HEADER: [u8; 32] = [
    5, 2, 87, 1, 0, 0, 64, 7, b'E', b'd', b'2', b'5', b'5', b'1', b'9', 0, 0, 0, 0, 0, 0, 0, 0, 0,
    0, 0, 0, 0, 0, 0, 0, 0,
];

const BITFIELD_HEADER: [u8; 32] = [
    5, 2, 87, 0, 0, 13, 0, 0, 0, 0, 0, 0, 0, 0, 0, 0, 0, 0, 0, 0, 0, 0, 0, 0, 0, 0, 0, 0, 0, 0, 0,
    0,
];

#[test]
fn new_store_is_empty() {
    let mut store = MemoryStore::new();
    assert_eq!(store.len(), 0);
    assert!(store.read(0, 1).is_err());
    assert_eq!(store.read(0, 0).unwrap(), Vec::<u8>::new());
}

#[test]
fn write_then_read() {
    let mut store = MemoryStore::new();
    store.write(0, b"hello").unwrap();
    assert_eq!(store.len(), 5);
    assert_eq!(store.read(0, 5).unwrap(), b"hello".to_vec());
    assert_eq!(store.read(1, 3).unwrap(), b"ell".to_vec());
}

#[test]
fn write_past_the_end_fills_the_gap_with_zeros() {
    let mut store = MemoryStore::new();
    store.write(0, &[1, 2]).unwrap();
    store.write(5, &[9]).unwrap();
    assert_eq!(store.len(), 6);
    assert_eq!(store.read(0, 6).unwrap(), vec![1, 2, 0, 0, 0, 9]);
}

#[test]
fn write_overwrites_in_place() {
    let mut store = MemoryStore::new();
    store.write(0, &[1, 2, 3, 4]).unwrap();
    store.write(1, &[8, 9]).unwrap();
    assert_eq!(store.len(), 4);
    assert_eq!(store.read(0, 4).unwrap(), vec![1, 8, 9, 4]);
}

#[test]
fn write_across_a_page_boundary() {
    let mut store = MemoryStore::new();
    let page = 1024 * 1024;
    store.write(page - 2, &[1, 2, 3, 4]).unwrap();
    assert_eq!(store.len(), page + 2);
    assert_eq!(store.read(page - 3, 5).unwrap(), vec![0, 1, 2, 3, 4]);
}

#[test]
fn empty_write_behind_the_end_grows_the_store() {
    let mut store = MemoryStore::new();
    store.write(3, &[]).unwrap();
    assert_eq!(store.len(), 3);
    assert_eq!(store.read(0, 3).unwrap(), vec![0, 0, 0]);
}

#[test]
fn read_past_the_end_fails() {
    let mut store = MemoryStore::new();
    store.write(0, &[1, 2, 3]).unwrap();
    assert!(store.read(2, 2).is_err());
    assert!(store.read(4, 0).is_err());
    assert_eq!(store.read(3, 0).unwrap(), Vec::<u8>::new());
    assert_eq!(store.len(), 3);
}

#[test]
fn opening_an_empty_store_writes_the_tree_header() {
    let mut store = MemoryStore::new();
    open_store(&mut store, Store::Tree).unwrap();
    assert_eq!(store.len(), 32);
    assert_eq!(store.read(0, 32).unwrap(), TREE_HEADER.to_vec());
}

#[test]
fn opening_an_empty_store_writes_the_signatures_header() {
    let mut store = MemoryStore::new();
    open_store(&mut store, Store::Signatures).unwrap();
    assert_eq!(store.len(), 32);
    assert_eq!(store.read(0, 32).unwrap(), SIGNATURES_HEADER.to_vec());
}

#[test]
fn opening_an_empty_store_writes_the_bitfield_header() {
    let mut store = MemoryStore::new();
    open_store(&mut store, Store::Bitfield).unwrap();
    assert_eq!(store.len(), 32);
    assert_eq!(store.read(0, 32).unwrap(), BITFIELD_HEADER.to_vec());
}

#[test]
fn opening_a_data_store_writes_nothing() {
    let mut store = MemoryStore::new();
    open_store(&mut store, Store::Data).unwrap();
    assert_eq!(store.len(), 0);
    store.write(0, &[1, 2, 3]).unwrap();
    open_store(&mut store, Store::Data).unwrap();
    assert_eq!(store.read(0, 3).unwrap(), vec![1, 2, 3]);
}

#[test]
fn opening_twice_keeps_the_store() {
    let mut store = MemoryStore::new();
    open_store(&mut store, Store::Tree).unwrap();
    store.write(32, &[7; 40]).unwrap();
    open_store(&mut store, Store::Tree).unwrap();
    open_store(&mut store, Store::Tree).unwrap();
    assert_eq!(store.len(), 72);
    assert_eq!(store.read(0, 32).unwrap(), TREE_HEADER.to_vec());
    assert_eq!(store.read(32, 40).unwrap(), vec![7; 40]);
}

#[test]
fn opening_against_a_changed_header_fails() {
    let mut store = MemoryStore::new();
    open_store(&mut store, Store::Tree).unwrap();
    store.write(6, &[41]).unwrap();
    let r = open_store(&mut store, Store::Tree);
    assert!(matches!(r, Err(StorageError::FormatMismatch { store: Store::Tree })));
    let mut found = TREE_HEADER.to_vec();
    found[6] = 41;
    assert_eq!(store.read(0, 32).unwrap(), found);
}

#[test]
fn opening_against_the_header_of_another_kind_fails() {
    let mut store = MemoryStore::new();
    open_store(&mut store, Store::Signatures).unwrap();
    let r = open_store(&mut store, Store::Tree);
    assert!(matches!(r, Err(StorageError::FormatMismatch { store: Store::Tree })));
    let r = open_store(&mut store, Store::Bitfield);
    assert!(matches!(r, Err(StorageError::FormatMismatch { store: Store::Bitfield })));
    open_store(&mut store, Store::Signatures).unwrap();
}

#[test]
fn opening_against_a_cut_header_fails() {
    let mut store = MemoryStore::new();
    store.write(0, &TREE_HEADER[..31]).unwrap();
    let r = open_store(&mut store, Store::Tree);
    assert!(matches!(r, Err(StorageError::FormatMismatch { store: Store::Tree })));
    assert_eq!(store.len(), 31);
}

#[test]
fn opening_against_changed_padding_fails() {
    let mut store = MemoryStore::new();
    let mut header = BITFIELD_HEADER.to_vec();
    header[31] = 1;
    store.write(0, &header).unwrap();
    let r = open_store(&mut store, Store::Bitfield);
    assert!(matches!(r, Err(StorageError::FormatMismatch { store: Store::Bitfield })));
}
