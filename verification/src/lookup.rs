//! The four lookups.

use crate::table::{
    has_binary, has_word, is_first_with_binary, is_first_with_word, spec_binary_to_word,
    spec_decimal_to_word, spec_word_to_binary, spec_word_to_decimal, WordList,
};
use crate::text::same_text;
use vstd::prelude::*;

verus! {

/// The characters of a string that a lookup found; `None` for a miss.
pub open spec fn text_of(found: Option<&str>) -> Option<Seq<char>> {
    match found {
        Some(s) => Some(s@),
        None => None,
    }
}

/// The position that a lookup found, as an integer; `None` for a miss.
pub open spec fn position_of(found: Option<usize>) -> Option<int> {
    match found {
        Some(i) => Some(i as int),
        None => None,
    }
}

/// The decimal index of `word`: the position of the first entry whose word is
/// exactly `word`. `None` where no entry holds the word.
///
/// The answer is the entry's place in the table; its binary string is not
/// read.
pub fn word_to_decimal(word_list: &WordList, word: &str) -> (found: Option<usize>)
    ensures
        position_of(found) == spec_word_to_decimal(word_list@, word@),
        found matches Some(i) ==> is_first_with_word(word_list@, word@, i as int),
        found is None <==> !has_word(word_list@, word@),
{
    let mut i: usize = 0;
    while i < word_list.wordlist.len()
        invariant
            i <= word_list.wordlist.len(),
            forall|j: int| #![trigger word_list@[j]] 0 <= j < i ==> word_list@[j].word != word@,
        decreases word_list.wordlist.len() - i,
    {
        if same_text(word_list.wordlist[i].word.as_str(), word) {
            assert(is_first_with_word(word_list@, word@, i as int));
            return Some(i);
        }
        i += 1;
    }
    None
}

/// The binary string of `word`: that of the first entry whose word is exactly
/// `word`. `None` where no entry holds the word.
pub fn word_to_binary<'a>(word_list: &'a WordList, word: &str) -> (found: Option<&'a str>)
    ensures
        text_of(found) == spec_word_to_binary(word_list@, word@),
        found matches Some(s) ==> exists|i: int|
            is_first_with_word(word_list@, word@, i) && s@ == word_list@[i].binary,
        found is None <==> !has_word(word_list@, word@),
{
    match word_to_decimal(word_list, word) {
        Some(i) => Some(word_list.wordlist[i].binary.as_str()),
        None => None,
    }
}

/// The word of `binary`: that of the first entry whose binary string is
/// exactly `binary`. `None` where no entry has that string.
///
/// The comparison is of strings, not of numbers: a string of another length
/// than an entry's, or with other characters, is a miss like any other.
pub fn binary_to_word<'a>(word_list: &'a WordList, binary: &str) -> (found: Option<&'a str>)
    ensures
        text_of(found) == spec_binary_to_word(word_list@, binary@),
        found matches Some(s) ==> exists|i: int|
            is_first_with_binary(word_list@, binary@, i) && s@ == word_list@[i].word,
        found is None <==> !has_binary(word_list@, binary@),
{
    let mut i: usize = 0;
    while i < word_list.wordlist.len()
        invariant
            i <= word_list.wordlist.len(),
            forall|j: int|
                #![trigger word_list@[j]]
                0 <= j < i ==> word_list@[j].binary != binary@,
        decreases word_list.wordlist.len() - i,
    {
        if same_text(word_list.wordlist[i].binary.as_str(), binary) {
            assert(is_first_with_binary(word_list@, binary@, i as int));
            return Some(word_list.wordlist[i].word.as_str());
        }
        i += 1;
    }
    None
}

/// The word at position `decimal`. `None` for every index at or past the end
/// of the table, however large.
pub fn decimal_to_word<'a>(word_list: &'a WordList, decimal: usize) -> (found: Option<&'a str>)
    ensures
        text_of(found) == spec_decimal_to_word(word_list@, decimal as int),
        found is None <==> decimal >= word_list@.len(),
{
    if decimal < word_list.wordlist.len() {
        Some(word_list.wordlist[decimal].word.as_str())
    } else {
        None
    }
}

} // verus!
