use bitcrust_core::hash::Hash32;
use bitcrust_core::store::{BlockContent, HashIndex, Store};

#[test]
fn what_is_written_is_read_back() {
    let mut content = BlockContent::new();
    assert!(!content.holds(0));
    let first = content.write(&[1, 2, 3]);
    let second = content.write(&[]);
    let third = content.write(&[9]);
    assert_eq!((first, second, third), (0, 1, 2));
    assert_eq!(content.read(first), &[1, 2, 3]);
    assert_eq!(content.read(second), &[] as &[u8]);
    assert_eq!(content.read(third), &[9]);
    assert!(content.holds(2));
    assert!(!content.holds(3));
}

#[test]
fn the_index_gives_back_what_was_set() {
    let mut index = HashIndex::new();
    let a = [1u8; 32];
    let b = [2u8; 32];
    let c = [3u8; 32];
    assert_eq!(index.get(Hash32::new(&a)), None);
    index.set(Hash32::new(&a), 10);
    index.set(Hash32::new(&b), 20);
    assert_eq!(index.get(Hash32::new(&a)), Some(10));
    assert_eq!(index.get(Hash32::new(&b)), Some(20));
    assert_eq!(index.get(Hash32::new(&c)), None);
}

#[test]
fn a_new_store_is_empty() {
    let store = Store::new();
    assert!(!store.block_content.holds(0));
    assert_eq!(store.index.get(Hash32::new(&[0u8; 32])), None);
}

#[test]
fn hashes_that_begin_alike_are_kept_apart() {
    let mut index = HashIndex::new();
    let mut a = [7u8; 32];
    let mut b = [7u8; 32];
    let mut c = [7u8; 32];
    a[8] = 1;
    b[31] = 2;
    c[0] = 3;
    index.set(Hash32::new(&a), 1);
    assert_eq!(index.get(Hash32::new(&b)), None);
    index.set(Hash32::new(&b), 2);
    index.set(Hash32::new(&c), 3);
    assert_eq!(index.get(Hash32::new(&a)), Some(1));
    assert_eq!(index.get(Hash32::new(&b)), Some(2));
    assert_eq!(index.get(Hash32::new(&c)), Some(3));
    assert_eq!(index.get(Hash32::new(&[7u8; 32])), None);
    for k in 0..200u8 {
        let mut h = [0u8; 32];
        h[k as usize % 32] = k | 1;
        h[31] ^= k;
        if index.get(Hash32::new(&h)).is_none() {
            index.set(Hash32::new(&h), 100 + k as u64);
        }
        assert!(index.get(Hash32::new(&h)).is_some());
    }
    assert_eq!(index.get(Hash32::new(&a)), Some(1));
}
