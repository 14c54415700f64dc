//! The table, its view, and what each lookup means on the view.

use vstd::prelude::*;

verus! {

/// One row of the table: a word and the binary string that stands for it.
#[derive(Debug)]
pub struct WordEntry {
    pub binary: String,
    pub word: String,
}

/// A word table. The order of the entries is significant: the position of an
/// entry is its decimal index.
///
/// Nothing is demanded of the entries: the lookups are total on every table,
/// and where a word or a binary string occurs more than once the first
/// occurrence answers.
#[derive(Debug)]
pub struct WordList {
    pub wordlist: Vec<WordEntry>,
}

/// An entry as the specifications see it: its two strings as sequences of
/// characters.
pub struct EntryView {
    pub binary: Seq<char>,
    pub word: Seq<char>,
}

impl View for WordEntry {
    type V = EntryView;

    open spec fn view(&self) -> EntryView {
        EntryView { binary: self.binary@, word: self.word@ }
    }
}

impl View for WordList {
    type V = Seq<EntryView>;

    open spec fn view(&self) -> Seq<EntryView> {
        self.wordlist@.map_values(|entry: WordEntry| entry@)
    }
}

/// Some entry of `table` holds `word`.
pub open spec fn has_word(table: Seq<EntryView>, word: Seq<char>) -> bool {
    exists|i: int| #![trigger table[i]] 0 <= i < table.len() && table[i].word == word
}

/// The entry at `i` holds `word`, and no entry before it does.
pub open spec fn is_first_with_word(table: Seq<EntryView>, word: Seq<char>, i: int) -> bool {
    &&& 0 <= i < table.len()
    &&& table[i].word == word
    &&& forall|j: int| #![trigger table[j]] 0 <= j < i ==> table[j].word != word
}

/// The position of the first entry that holds `word`; arbitrary where none
/// does.
pub open spec fn first_with_word(table: Seq<EntryView>, word: Seq<char>) -> int {
    choose|i: int| is_first_with_word(table, word, i)
}

/// Some entry of `table` has `binary` as its binary string.
pub open spec fn has_binary(table: Seq<EntryView>, binary: Seq<char>) -> bool {
    exists|i: int| #![trigger table[i]] 0 <= i < table.len() && table[i].binary == binary
}

/// The entry at `i` has `binary` as its binary string, and no entry before it
/// has.
pub open spec fn is_first_with_binary(table: Seq<EntryView>, binary: Seq<char>, i: int) -> bool {
    &&& 0 <= i < table.len()
    &&& table[i].binary == binary
    &&& forall|j: int| #![trigger table[j]] 0 <= j < i ==> table[j].binary != binary
}

/// The position of the first entry whose binary string is `binary`; arbitrary
/// where there is none.
pub open spec fn first_with_binary(table: Seq<EntryView>, binary: Seq<char>) -> int {
    choose|i: int| is_first_with_binary(table, binary, i)
}

/// The index of `word`: the position of the first entry that holds it.
pub open spec fn spec_word_to_decimal(table: Seq<EntryView>, word: Seq<char>) -> Option<int> {
    if has_word(table, word) {
        Some(first_with_word(table, word))
    } else {
        None
    }
}

/// The binary string of `word`: that of the first entry that holds the word.
pub open spec fn spec_word_to_binary(table: Seq<EntryView>, word: Seq<char>) -> Option<
    Seq<char>,
> {
    if has_word(table, word) {
        Some(table[first_with_word(table, word)].binary)
    } else {
        None
    }
}

/// The word of `binary`: that of the first entry whose binary string is
/// `binary`, character for character.
pub open spec fn spec_binary_to_word(table: Seq<EntryView>, binary: Seq<char>) -> Option<
    Seq<char>,
> {
    if has_binary(table, binary) {
        Some(table[first_with_binary(table, binary)].word)
    } else {
        None
    }
}

/// The word at `index`, for an index inside the table.
pub open spec fn spec_decimal_to_word(table: Seq<EntryView>, index: int) -> Option<Seq<char>> {
    if 0 <= index < table.len() {
        Some(table[index].word)
    } else {
        None
    }
}

/// Among the integers from 0 on, a predicate that holds at `hit` holds at a
/// least one.
proof fn lemma_least(holds: spec_fn(int) -> bool, hit: int)
    requires
        0 <= hit,
        holds(hit),
    ensures
        exists|i: int|
            0 <= i <= hit && #[trigger] holds(i) && forall|j: int|
                0 <= j < i ==> !#[trigger] holds(j),
    decreases hit,
{
    if exists|j: int| 0 <= j < hit && #[trigger] holds(j) {
        let earlier = choose|j: int| 0 <= j < hit && #[trigger] holds(j);
        lemma_least(holds, earlier);
    }
}

/// Where `table` holds `word`, `first_with_word` is the first position that
/// holds it, and the only position that is first.
pub proof fn lemma_first_with_word(table: Seq<EntryView>, word: Seq<char>)
    requires
        has_word(table, word),
    ensures
        is_first_with_word(table, word, first_with_word(table, word)),
        forall|i: int|
            is_first_with_word(table, word, i) ==> i == first_with_word(table, word),
{
    let holds = |i: int| 0 <= i < table.len() && table[i].word == word;
    let hit = choose|i: int| #![trigger table[i]] 0 <= i < table.len() && table[i].word == word;
    lemma_least(holds, hit);
    let least = choose|i: int|
        0 <= i <= hit && #[trigger] holds(i) && forall|j: int| 0 <= j < i ==> !#[trigger] holds(j);
    assert forall|j: int| 0 <= j < least implies table[j].word != word by {
        assert(!holds(j));
    }
    assert(is_first_with_word(table, word, least));
}

/// Where `table` holds `binary`, `first_with_binary` is the first position
/// that holds it, and the only position that is first.
pub proof fn lemma_first_with_binary(table: Seq<EntryView>, binary: Seq<char>)
    requires
        has_binary(table, binary),
    ensures
        is_first_with_binary(table, binary, first_with_binary(table, binary)),
        forall|i: int|
            is_first_with_binary(table, binary, i) ==> i == first_with_binary(table, binary),
{
    let holds = |i: int| 0 <= i < table.len() && table[i].binary == binary;
    let hit = choose|i: int|
        #![trigger table[i]]
        0 <= i < table.len() && table[i].binary == binary;
    lemma_least(holds, hit);
    let least = choose|i: int|
        0 <= i <= hit && #[trigger] holds(i) && forall|j: int| 0 <= j < i ==> !#[trigger] holds(j);
    assert forall|j: int| 0 <= j < least implies table[j].binary != binary by {
        assert(!holds(j));
    }
    assert(is_first_with_binary(table, binary, least));
}

} // verus!
