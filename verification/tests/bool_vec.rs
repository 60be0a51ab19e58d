use trilogy_save_editor::bool_vec::{BoolVec, OutOfRange};

#[test]
fn flags_follow_the_bits_of_their_word() {
    let store = BoolVec::decode(vec![0b0000_0000_0000_0000_0000_0000_0100_0010]);
    assert_eq!(store.get(1), Some(true));
    assert_eq!(store.get(6), Some(true));
    assert_eq!(store.get(0), Some(false));
    assert_eq!(store.get(32), None);
}

#[test]
fn every_flag_is_its_bit() {
    let words: Vec<u32> = vec![0xdead_beef, 0, 0xffff_ffff, 0x8000_0001];
    let store = BoolVec::decode(words.clone());
    assert_eq!(store.capacity(), 128);
    for k in 0..128usize {
        let bit = (words[k / 32] >> (k % 32)) & 1 == 1;
        assert_eq!(store.get(k), Some(bit));
    }
    assert_eq!(store.get(128), None);
    assert_eq!(store.get(usize::MAX), None);
}

#[test]
fn words_come_back_as_they_went_in() {
    let words: Vec<u32> = vec![0xdead_beef, 0, 0xffff_ffff, 0x8000_0001, 7];
    assert_eq!(BoolVec::decode(words.clone()).encode(), words);
    assert_eq!(BoolVec::decode(Vec::new()).encode(), Vec::<u32>::new());
}

#[test]
fn a_write_changes_one_bit() {
    let mut store = BoolVec::decode(vec![0, 0xffff_ffff]);
    assert_eq!(store.set(3, true), Ok(()));
    assert_eq!(store.set(32 + 31, false), Ok(()));
    assert_eq!(store.set(32, true), Ok(()));
    assert_eq!(store.encode(), vec![0b1000, 0x7fff_ffff]);
    assert_eq!(store.get(3), Some(true));
    assert_eq!(store.get(63), Some(false));
}

#[test]
fn a_write_out_of_range_fails_and_changes_nothing() {
    let mut store = BoolVec::decode(vec![7, 0x8000_0000]);
    assert_eq!(store.set(64, true), Err(OutOfRange { index: 64, capacity: 64 }));
    assert_eq!(store.set(usize::MAX, false), Err(OutOfRange { index: usize::MAX, capacity: 64 }));
    assert_eq!(store.encode(), vec![7, 0x8000_0000]);
}

#[test]
fn an_empty_store_holds_nothing() {
    let mut store = BoolVec::decode(Vec::new());
    assert!(store.is_empty());
    assert_eq!(store.capacity(), 0);
    assert_eq!(store.get(0), None);
    assert_eq!(store.set(0, true), Err(OutOfRange { index: 0, capacity: 0 }));
    assert!(!BoolVec::decode(vec![0]).is_empty());
}

#[test]
fn a_copy_is_its_own_store() {
    let store = BoolVec::decode(vec![5, 9]);
    let mut copy = store.clone();
    assert_eq!(copy.set(1, true), Ok(()));
    assert_eq!(store.encode(), vec![5, 9]);
    assert_eq!(copy.encode(), vec![7, 9]);
}

#[test]
fn the_word_limit_is_a_256th_of_the_address_space() {
    assert_eq!(BoolVec::word_limit(), usize::MAX / 256);
}
