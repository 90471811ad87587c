use dozer_core::EpochManager;
use dozer_core::Field;
use dozer_core::NodeHandle;
use dozer_core::Record;
use dozer_core::u64_from_be_bytes;
use dozer_core::u64_to_be_bytes;

fn node(name: &[u8]) -> NodeHandle {
    NodeHandle::new(None, name.to_vec())
}

#[test]
fn big_endian_bytes_are_exact() {
    assert_eq!(u64_to_be_bytes(5), vec![0, 0, 0, 0, 0, 0, 0, 5]);
    assert_eq!(u64_to_be_bytes(0x0102030405060708), vec![1, 2, 3, 4, 5, 6, 7, 8]);
    let b = u64_to_be_bytes(0xdead_beef_0012_3456);
    assert_eq!(u64_from_be_bytes(&b, 0), 0xdead_beef_0012_3456);
}

#[test]
fn record_key_is_the_indexed_fields_encoding() {
    // A UInt field encodes as its tag byte followed by the big-endian value.
    let r = Record::new(vec![Field::UInt(7), Field::UInt(100)]);
    let key = r.get_key(&vec![0]);
    assert_eq!(key, vec![2, 0, 0, 0, 0, 0, 0, 0, 7]);
    // Key equality is equality of the indexed projection: the second field
    // does not matter.
    let r2 = Record::new(vec![Field::UInt(7), Field::UInt(999)]);
    assert_eq!(r2.get_key(&vec![0]), key);
    // A different key field gives a different key.
    let r3 = Record::new(vec![Field::UInt(8), Field::UInt(100)]);
    assert_ne!(r3.get_key(&vec![0]), key);
}

#[test]
fn first_cut_carries_epoch_id_one_and_ids_increase() {
    let mut em = EpochManager::new(1, 2);
    let s = node(b"s");
    assert!(em.advance(&s, 1, false).is_none());
    let first = em.advance(&s, 1, false).expect("threshold reached");
    assert_eq!(first.id, 1);
    assert!(!first.forced);
    let second = em.advance(&s, 0, true).expect("forced");
    assert_eq!(second.id, 2);
    assert!(second.forced);
}

#[test]
fn cut_epoch_is_served_to_every_source_of_the_round() {
    let mut em = EpochManager::new(3, 100);
    let a = node(b"a");
    let b = node(b"b");
    let c = node(b"c");
    let cut = em.advance(&a, 1, true).expect("forced cut");
    assert_eq!(cut.id, 1);
    assert!(cut.forced);
    let for_b = em.advance(&b, 1, false).expect("same round");
    assert_eq!(for_b.id, 1);
    assert!(for_b.forced);
    let for_c = em.advance(&c, 0, false).expect("same round");
    assert_eq!(for_c.id, 1);
    // The round is over: the next call opens a fresh count.
    assert!(em.advance(&a, 1, false).is_none());
}

#[test]
fn unforced_calls_below_threshold_cut_nothing() {
    let mut em = EpochManager::new(2, 10);
    let a = node(b"a");
    for _ in 0..9 {
        assert!(em.advance(&a, 1, false).is_none());
    }
    let cut = em.advance(&a, 1, false).expect("tenth operation crosses the threshold");
    assert_eq!(cut.id, 1);
    assert!(!cut.forced);
}
