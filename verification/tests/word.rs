use trilogy_save_editor::word::{bytes_of_words, int_of_word, word_of_int, words_of_bytes};

#[test]
fn integers_are_words_in_twos_complement() {
    assert_eq!(int_of_word(0), 0);
    assert_eq!(int_of_word(5), 5);
    assert_eq!(int_of_word(0x7fff_ffff), i32::MAX);
    assert_eq!(int_of_word(0x8000_0000), i32::MIN);
    assert_eq!(int_of_word(0xffff_ffff), -1);
    assert_eq!(word_of_int(-1), 0xffff_ffff);
    assert_eq!(word_of_int(i32::MIN), 0x8000_0000);
    assert_eq!(word_of_int(i32::MAX), 0x7fff_ffff);
    assert_eq!(word_of_int(-2), 0xffff_fffe);
}

#[test]
fn words_are_four_bytes_lowest_first() {
    assert_eq!(bytes_of_words(&vec![0x0403_0201, 0xffee_ddcc]), vec![1, 2, 3, 4, 0xcc, 0xdd, 0xee, 0xff]);
    assert_eq!(words_of_bytes(&[1, 2, 3, 4, 0xcc, 0xdd, 0xee, 0xff]), vec![0x0403_0201, 0xffee_ddcc]);
    assert_eq!(bytes_of_words(&Vec::new()), Vec::<u8>::new());
}

#[test]
fn bytes_that_do_not_fill_a_word_are_left_out() {
    assert_eq!(words_of_bytes(&[1, 0, 0, 0, 9, 9, 9]), vec![1]);
    assert_eq!(words_of_bytes(&[1, 2, 3]), Vec::<u32>::new());
}
