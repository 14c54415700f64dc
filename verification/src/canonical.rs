//! The canonical table.
//!
//! A word table is meant to hold 2048 entries, no word twice, the binary
//! string of the entry at position `i` being `i` written as eleven binary
//! digits. The lookups do not rely on any of this, and nothing enforces it.
//! This module says what it means and what follows from it: a canonical table
//! repeats neither words nor binary strings, so the round trips of
//! [`crate::laws`] hold of it, and its lookups by binary string are the
//! reading of a binary number.

use crate::laws::{binaries_are_distinct, leads_its_binary, words_are_distinct};
use crate::table::{
    has_word, lemma_first_with_word, spec_binary_to_word, spec_word_to_binary,
    spec_word_to_decimal, EntryView, WordList,
};
use crate::text::same_text;
use vstd::arithmetic::power2::{lemma2_to64, lemma_pow2_unfold, pow2};
use vstd::prelude::*;

verus! {

/// The number of entries of a canonical table.
pub const TABLE_LEN: usize = 2048;

/// The number of digits of each binary string of a canonical table.
pub const BINARY_LEN: usize = 11;

/// The digit for a remainder on division by two.
pub open spec fn digit_of(remainder: nat) -> char {
    if remainder == 1 {
        '1'
    } else {
        '0'
    }
}

/// `n` written with `width` binary digits, the most significant first and
/// padded with zeros on the left. Of a number too large for `width` digits
/// the lowest `width` digits are given.
pub open spec fn binary_digits(n: nat, width: nat) -> Seq<char>
    decreases width,
{
    if width == 0 {
        Seq::empty()
    } else {
        binary_digits(n / 2, (width - 1) as nat).push(digit_of(n % 2))
    }
}

/// Every character of `s` is `0` or `1`.
pub open spec fn is_binary_string(s: Seq<char>) -> bool {
    forall|k: int| 0 <= k < s.len() ==> s[k] == '0' || s[k] == '1'
}

/// The number that a string of binary digits denotes, the most significant
/// digit first.
pub open spec fn binary_value(digits: Seq<char>) -> nat
    decreases digits.len(),
{
    if digits.len() == 0 {
        0
    } else {
        2 * binary_value(digits.drop_last()) + if digits.last() == '1' {
            1nat
        } else {
            0nat
        }
    }
}

/// `table` is canonical: it has 2048 entries, the entry at each position has
/// the position in eleven binary digits as its binary string, and no two
/// entries hold the same word.
pub open spec fn is_canonical(table: Seq<EntryView>) -> bool {
    &&& table.len() == TABLE_LEN
    &&& forall|i: int|
        #![trigger table[i]]
        0 <= i < table.len() ==> table[i].binary == binary_digits(i as nat, BINARY_LEN as nat)
    &&& words_are_distinct(table)
}

/// `binary_digits` gives `width` characters, each `0` or `1`.
pub proof fn lemma_binary_digits_shape(n: nat, width: nat)
    ensures
        binary_digits(n, width).len() == width,
        is_binary_string(binary_digits(n, width)),
    decreases width,
{
    if width > 0 {
        lemma_binary_digits_shape(n / 2, (width - 1) as nat);
    }
}

/// Reading the digits of a number that fits in `width` digits gives the
/// number back.
pub proof fn lemma_value_of_digits(n: nat, width: nat)
    requires
        n < pow2(width),
    ensures
        binary_value(binary_digits(n, width)) == n,
    decreases width,
{
    if width == 0 {
        lemma2_to64();
    } else {
        lemma_pow2_unfold(width);
        lemma_value_of_digits(n / 2, (width - 1) as nat);
        assert(binary_digits(n, width).drop_last() =~= binary_digits(n / 2, (width - 1) as nat));
    }
}

/// Writing the value of a string of binary digits with as many digits as the
/// string has gives the string back.
pub proof fn lemma_digits_of_value(s: Seq<char>)
    requires
        is_binary_string(s),
    ensures
        binary_value(s) < pow2(s.len()),
        binary_digits(binary_value(s), s.len()) == s,
    decreases s.len(),
{
    if s.len() == 0 {
        lemma2_to64();
    } else {
        lemma_digits_of_value(s.drop_last());
        lemma_pow2_unfold(s.len());
    }
}

/// Two numbers that fit in `width` digits and have the same digits are the
/// same number.
pub proof fn lemma_binary_digits_injective(a: nat, b: nat, width: nat)
    requires
        a < pow2(width),
        b < pow2(width),
        binary_digits(a, width) == binary_digits(b, width),
    ensures
        a == b,
{
    lemma_value_of_digits(a, width);
    lemma_value_of_digits(b, width);
}

/// A canonical table repeats neither a word nor a binary string, so every
/// round trip of [`crate::laws`] holds of it.
pub proof fn law_canonical_has_no_repeats(table: Seq<EntryView>)
    requires
        is_canonical(table),
    ensures
        words_are_distinct(table),
        binaries_are_distinct(table),
{
    lemma2_to64();
    assert forall|i: int, j: int|
        #![trigger table[i], table[j]]
        0 <= i < j < table.len() implies table[i].binary != table[j].binary by {
        if table[i].binary == table[j].binary {
            lemma_binary_digits_injective(i as nat, j as nat, BINARY_LEN as nat);
        }
    }
}

/// In a canonical table the lookup by binary string reads a binary number:
/// a string of eleven binary digits finds the word at the position that it
/// denotes, and every other string finds nothing.
pub proof fn law_canonical_binary_to_word(table: Seq<EntryView>, binary: Seq<char>)
    requires
        is_canonical(table),
    ensures
        spec_binary_to_word(table, binary) == if binary.len() == BINARY_LEN && is_binary_string(
            binary,
        ) {
            Some(table[binary_value(binary) as int].word)
        } else {
            None
        },
{
    lemma2_to64();
    law_canonical_has_no_repeats(table);
    if binary.len() == BINARY_LEN && is_binary_string(binary) {
        lemma_digits_of_value(binary);
        assert(leads_its_binary(table, binary_value(binary) as int));
    } else {
        assert forall|i: int| #![trigger table[i]] 0 <= i < table.len() implies table[i].binary
            != binary by {
            lemma_binary_digits_shape(i as nat, BINARY_LEN as nat);
        }
    }
}

/// In a canonical table the binary string of a word is its decimal index in
/// eleven binary digits.
pub proof fn law_canonical_word_to_binary(table: Seq<EntryView>, word: Seq<char>)
    requires
        is_canonical(table),
    ensures
        spec_word_to_binary(table, word) == match spec_word_to_decimal(table, word) {
            Some(i) => Some(binary_digits(i as nat, BINARY_LEN as nat)),
            None => None,
        },
{
    if has_word(table, word) {
        lemma_first_with_word(table, word);
    }
}

/// Appends `n` in `width` binary digits to `out`.
fn push_binary_digits(out: &mut String, n: usize, width: usize)
    ensures
        final(out)@ == old(out)@ + binary_digits(n as nat, width as nat),
    decreases width,
{
    if width > 0 {
        push_binary_digits(out, n / 2, width - 1);
        proof {
            reveal_strlit("0");
            reveal_strlit("1");
        }
        if n % 2 == 1 {
            out.append("1");
        } else {
            out.append("0");
        }
    }
}

/// `index` in eleven binary digits: the binary string that a canonical table
/// has at position `index`. Of an index of 2048 or more the lowest eleven
/// digits are given.
pub fn binary_of_index(index: usize) -> (digits: String)
    ensures
        digits@ == binary_digits(index as nat, BINARY_LEN as nat),
{
    let mut digits = String::new();
    push_binary_digits(&mut digits, index, BINARY_LEN);
    digits
}

impl WordList {
    /// Whether the table is canonical. No lookup asks for this, and a table
    /// that is not canonical is looked up like any other; the answer tells
    /// whether the laws of canonical tables can be relied on.
    pub fn is_canonical(&self) -> (ok: bool)
        ensures
            ok == is_canonical(self@),
    {
        let len = self.wordlist.len();
        if len != TABLE_LEN {
            return false;
        }
        let mut i: usize = 0;
        while i < len
            invariant
                len == self.wordlist.len(),
                len == TABLE_LEN,
                i <= len,
                forall|k: int|
                    #![trigger self@[k]]
                    0 <= k < i ==> self@[k].binary == binary_digits(k as nat, BINARY_LEN as nat),
            decreases len - i,
        {
            let expected = binary_of_index(i);
            if !same_text(self.wordlist[i].binary.as_str(), expected.as_str()) {
                assert(self@[i as int].binary != binary_digits(i as nat, BINARY_LEN as nat));
                return false;
            }
            i += 1;
        }
        let mut upper: usize = 0;
        while upper < len
            invariant
                len == self.wordlist.len(),
                upper <= len,
                forall|a: int, b: int|
                    #![trigger self@[a], self@[b]]
                    0 <= a < b < upper ==> self@[a].word != self@[b].word,
            decreases len - upper,
        {
            let mut lower: usize = 0;
            while lower < upper
                invariant
                    len == self.wordlist.len(),
                    upper < len,
                    lower <= upper,
                    forall|a: int|
                        #![trigger self@[a]]
                        0 <= a < lower ==> self@[a].word != self@[upper as int].word,
                decreases upper - lower,
            {
                if same_text(
                    self.wordlist[lower].word.as_str(),
                    self.wordlist[upper].word.as_str(),
                ) {
                    assert(self@[lower as int].word == self@[upper as int].word);
                    return false;
                }
                lower += 1;
            }
            upper += 1;
        }
        true
    }
}

} // verus!
