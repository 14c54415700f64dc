use mnemonic::canonical::{binary_of_index, BINARY_LEN, TABLE_LEN};
use mnemonic::{binary_to_word, decimal_to_word, word_to_binary, word_to_decimal, WordEntry, WordList};

/// A table of `len` entries, each with its position in eleven binary digits
/// and a word of its own.
fn numbered(len: usize) -> WordList {
    let mut wordlist: Vec<WordEntry> = Vec::new();
    for i in 0..len {
        wordlist.push(WordEntry { binary: format!("{:011b}", i), word: format!("w{}", i) });
    }
    WordList { wordlist }
}

#[test]
fn constants_of_the_canonical_table() {
    assert_eq!(TABLE_LEN, 2048);
    assert_eq!(BINARY_LEN, 11);
}

#[test]
fn binary_of_index_exact_values() {
    assert_eq!(binary_of_index(0), "00000000000");
    assert_eq!(binary_of_index(1), "00000000001");
    assert_eq!(binary_of_index(2), "00000000010");
    assert_eq!(binary_of_index(5), "00000000101");
    assert_eq!(binary_of_index(1024), "10000000000");
    assert_eq!(binary_of_index(1365), "10101010101");
    assert_eq!(binary_of_index(1531), "10111111011");
    assert_eq!(binary_of_index(2046), "11111111110");
    assert_eq!(binary_of_index(2047), "11111111111");
}

#[test]
fn binary_of_index_agrees_with_std_formatting() {
    for i in 0..2048usize {
        assert_eq!(binary_of_index(i), format!("{:011b}", i));
    }
}

#[test]
fn binary_of_index_keeps_the_lowest_eleven_digits() {
    assert_eq!(binary_of_index(2048), "00000000000");
    assert_eq!(binary_of_index(2049), "00000000001");
    assert_eq!(binary_of_index(4095), "11111111111");
    assert_eq!(binary_of_index(usize::MAX), "11111111111");
    assert_eq!(binary_of_index(usize::MAX - 1), "11111111110");
}

#[test]
fn numbered_table_of_2048_is_canonical() {
    assert!(numbered(2048).is_canonical());
}

#[test]
fn other_lengths_are_not_canonical() {
    assert!(!numbered(0).is_canonical());
    assert!(!numbered(1).is_canonical());
    assert!(!numbered(2047).is_canonical());
    assert!(!numbered(2049).is_canonical());
}

#[test]
fn wrong_binary_is_not_canonical() {
    let mut t = numbered(2048);
    t.wordlist[7].binary = String::from("00000000110");
    assert!(!t.is_canonical());

    let mut t = numbered(2048);
    t.wordlist[0].binary = String::from("0");
    assert!(!t.is_canonical());

    let mut t = numbered(2048);
    t.wordlist[2047].binary = String::from("011111111111");
    assert!(!t.is_canonical());

    let mut t = numbered(2048);
    t.wordlist[3].binary = String::from("0000000001l");
    assert!(!t.is_canonical());

    let mut t = numbered(2048);
    t.wordlist.swap(10, 11);
    assert!(!t.is_canonical());
}

#[test]
fn repeated_word_is_not_canonical() {
    let mut t = numbered(2048);
    t.wordlist[2047].word = String::from("w0");
    assert!(!t.is_canonical());

    let mut t = numbered(2048);
    t.wordlist[1].word = String::from("w0");
    assert!(!t.is_canonical());

    let mut t = numbered(2048);
    t.wordlist[1000].word = String::from("w1001");
    assert!(!t.is_canonical());
}

#[test]
fn words_may_be_swapped_in_a_canonical_table() {
    let mut t = numbered(2048);
    t.wordlist[10].word = String::from("w11");
    t.wordlist[11].word = String::from("w10");
    assert!(t.is_canonical());
    assert_eq!(word_to_decimal(&t, "w11"), Some(10));
    assert_eq!(word_to_binary(&t, "w10"), Some("00000001011"));
}

#[test]
fn canonical_binary_lookup_reads_a_binary_number() {
    let t = numbered(2048);
    for i in 0..2048usize {
        let binary = binary_of_index(i);
        assert_eq!(binary_to_word(&t, &binary), decimal_to_word(&t, i));
        assert_eq!(binary_to_word(&t, &binary), Some(format!("w{}", i).as_str()));
    }
    assert_eq!(binary_to_word(&t, "101010101010"), None);
    assert_eq!(binary_to_word(&t, "1010101010"), None);
    assert_eq!(binary_to_word(&t, "1010101010x"), None);
    assert_eq!(binary_to_word(&t, "10101010102"), None);
    assert_eq!(binary_to_word(&t, ""), None);
}

#[test]
fn canonical_word_lookup_gives_the_index_in_binary() {
    let t = numbered(2048);
    for i in 0..2048usize {
        let word = format!("w{}", i);
        assert_eq!(word_to_decimal(&t, &word), Some(i));
        assert_eq!(word_to_binary(&t, &word), Some(binary_of_index(i).as_str()));
    }
    assert_eq!(word_to_decimal(&t, "w2048"), None);
    assert_eq!(word_to_binary(&t, "w2048"), None);
}
