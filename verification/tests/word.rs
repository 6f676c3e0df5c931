use real_time::word::{Byte, Word};

#[test]
fn a_word_holds_what_was_stored_last() {
    let mut word = Word::new(3);
    assert_eq!(word.load(), 3);

    word.store(8);
    assert_eq!(word.load(), 8);

    assert_eq!(word.swap(5), 8);
    assert_eq!(word.load(), 5);
}

#[test]
fn a_word_is_exchanged_only_if_it_is_as_expected() {
    let mut word = Word::new(3);

    assert_eq!(word.compare_exchange(4, 9), Err(3));
    assert_eq!(word.load(), 3);

    assert_eq!(word.compare_exchange(3, 9), Ok(3));
    assert_eq!(word.load(), 9);
}

#[test]
fn words_are_on_cache_lines_of_their_own() {
    let words = [Word::new(1), Word::new(2)];
    let distance = std::mem::size_of_val(&words) / 2;
    assert!(distance >= 16);
    assert_eq!(words[0].load(), 1);
    assert_eq!(words[1].load(), 2);
}

#[test]
fn a_byte_holds_what_was_stored_last() {
    let mut byte = Byte::new(0b0101);
    assert_eq!(byte.load(), 0b0101);

    assert_eq!(byte.fetch_or(0b0010), 0b0101);
    assert_eq!(byte.load(), 0b0111);

    byte.store(1);
    assert_eq!(byte.load(), 1);
}

#[test]
fn a_byte_is_exchanged_only_if_it_is_as_expected() {
    let mut byte = Byte::new(3);

    assert_eq!(byte.compare_exchange(4, 9), Err(3));
    assert_eq!(byte.load(), 3);

    assert_eq!(byte.compare_exchange(3, 9), Ok(3));
    assert_eq!(byte.load(), 9);
}
