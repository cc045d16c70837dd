//! A minimal full-text search core: text analysis, an inverted index of
//! posting lists, and conjunctive queries over it.
//!
//! Text is split into tokens and cleared of stop words by the
//! [`Analyzer`]. An [`InvertedIndex`] maps each token to its posting list:
//! the ids of the documents that hold it, in the order in which they were
//! inserted. A query is analyzed like a document, and finds the ids that
//! occur in the posting list of every one of its tokens that the index
//! knows.

pub mod std_specs;
pub mod charclass;
pub mod seqs;
pub mod tokenizer;
pub mod analyzer;
pub mod postings;
pub mod model;
pub mod index;

pub use analyzer::{stopword_filter, Analyzer};
pub use charclass::{classify, CharClass};
pub use index::{Document, InvertedIndex};
pub use postings::{append_id, deduplicate, intersection};
pub use tokenizer::{scan, split_words, tokenize, Glyph};
