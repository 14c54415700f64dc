//! Round trips between the lookups.
//!
//! The lookups are total on every table, but a round trip comes back to where
//! it started only where the table does not get in its own way: with a binary
//! string shared by two entries, the word of the second is looked up and the
//! word of the first comes back. Each law says exactly when its round trip
//! comes back, and that it always does in a table that repeats neither a
//! word nor a binary string.

use crate::table::{
    first_with_binary, first_with_word, has_word, is_first_with_binary, is_first_with_word,
    lemma_first_with_binary, lemma_first_with_word, spec_binary_to_word, spec_decimal_to_word,
    spec_word_to_binary, spec_word_to_decimal, EntryView,
};
use vstd::prelude::*;

verus! {

/// No two entries of `table` hold the same word.
pub open spec fn words_are_distinct(table: Seq<EntryView>) -> bool {
    forall|i: int, j: int|
        #![trigger table[i], table[j]]
        0 <= i < j < table.len() ==> table[i].word != table[j].word
}

/// No two entries of `table` have the same binary string.
pub open spec fn binaries_are_distinct(table: Seq<EntryView>) -> bool {
    forall|i: int, j: int|
        #![trigger table[i], table[j]]
        0 <= i < j < table.len() ==> table[i].binary != table[j].binary
}

/// The entry at `i` is the first of `table` to hold its word.
pub open spec fn leads_its_word(table: Seq<EntryView>, i: int) -> bool {
    is_first_with_word(table, table[i].word, i)
}

/// The entry at `i` is the first of `table` to have its binary string.
pub open spec fn leads_its_binary(table: Seq<EntryView>, i: int) -> bool {
    is_first_with_binary(table, table[i].binary, i)
}

/// From a word to its binary string, and from that string to a word.
pub open spec fn word_binary_word(table: Seq<EntryView>, word: Seq<char>) -> Option<Seq<char>> {
    match spec_word_to_binary(table, word) {
        Some(binary) => spec_binary_to_word(table, binary),
        None => None,
    }
}

/// From an index to its word, and from that word to an index.
pub open spec fn decimal_word_decimal(table: Seq<EntryView>, index: int) -> Option<int> {
    match spec_decimal_to_word(table, index) {
        Some(word) => spec_word_to_decimal(table, word),
        None => None,
    }
}

/// Once round all four lookups: from an index to its word, from the word to
/// its binary string, from the binary string to a word, and from that word
/// to an index.
pub open spec fn round_trip(table: Seq<EntryView>, index: int) -> Option<int> {
    match spec_decimal_to_word(table, index) {
        Some(word) => match word_binary_word(table, word) {
            Some(word_again) => spec_word_to_decimal(table, word_again),
            None => None,
        },
        None => None,
    }
}

/// Word to binary string and back. For a word that the table holds, the
/// binary string that `word_to_binary` gives is one that `binary_to_word`
/// turns into the same word again, exactly where the first entry that holds
/// the word is also the first that has its binary string; so it does in
/// every table of distinct binary strings.
pub proof fn law_word_binary_word(table: Seq<EntryView>, word: Seq<char>)
    requires
        has_word(table, word),
    ensures
        word_binary_word(table, word) is Some,
        word_binary_word(table, word) == Some(word) <==> leads_its_binary(
            table,
            first_with_word(table, word),
        ),
        binaries_are_distinct(table) ==> word_binary_word(table, word) == Some(word),
{
    lemma_first_with_word(table, word);
    lemma_first_with_binary(table, table[first_with_word(table, word)].binary);
}

/// Index to word and back. For an index inside the table, the word that
/// `decimal_to_word` gives is one that `word_to_decimal` turns into the same
/// index again, exactly where the entry at the index is the first to hold
/// its word; so it does in every table of distinct words.
pub proof fn law_decimal_word_decimal(table: Seq<EntryView>, index: int)
    requires
        0 <= index < table.len(),
    ensures
        decimal_word_decimal(table, index) is Some,
        decimal_word_decimal(table, index) == Some(index) <==> leads_its_word(table, index),
        words_are_distinct(table) ==> decimal_word_decimal(table, index) == Some(index),
{
    lemma_first_with_word(table, table[index].word);
}

/// Once round all four lookups. For an index inside the table every step
/// finds something, and the index that comes out is the one that went in
/// exactly where the entry at the index is the first to hold its word and
/// the first to have its binary string; so it is in every table that
/// repeats neither a word nor a binary string.
pub proof fn law_round_trip(table: Seq<EntryView>, index: int)
    requires
        0 <= index < table.len(),
    ensures
        round_trip(table, index) is Some,
        round_trip(table, index) == Some(index) <==> leads_its_word(table, index)
            && leads_its_binary(table, index),
        words_are_distinct(table) && binaries_are_distinct(table) ==> round_trip(table, index)
            == Some(index),
{
    let word = table[index].word;
    lemma_first_with_word(table, word);
    let binary = table[first_with_word(table, word)].binary;
    lemma_first_with_binary(table, binary);
    let word_again = table[first_with_binary(table, binary)].word;
    lemma_first_with_word(table, word_again);
}

} // verus!
