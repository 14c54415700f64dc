//! Lookups over a BIP39 word table.
//!
//! A table is an ordered list of entries, each a word together with the
//! binary string that stands for it. The place of an entry in the list is
//! its decimal index. Four lookups go between word, binary string and index;
//! each is a single pass over the table, and each reports a miss as `None`.
//!
//! Every lookup is specified over the table's view, a sequence of
//! [`EntryView`]s, by the spec functions of [`table`]. The round trips
//! between the lookups are proved in [`laws`]. What a table is meant to look
//! like, and what the lookups do on such a table, is in [`canonical`]; the
//! lookups themselves take every table as it comes.

pub mod canonical;
pub mod laws;
pub mod lookup;
pub mod table;
pub mod text;

pub use lookup::{binary_to_word, decimal_to_word, word_to_binary, word_to_decimal};
pub use table::{EntryView, WordEntry, WordList};
