//! Text analysis: tokenizing, then removing stop words.
//!
//! Documents and queries are analyzed in the same way, by the same
//! [`Analyzer`].

use vstd::prelude::*;
use vstd::hash_set::StringHashSet;
use crate::seqs::{lemma_filter_contains, lemma_filter_push};
use crate::tokenizer::{tokenize, tokens_of};

verus! {

/// The stop words: `a` and `dia`. They are matched exactly, so a token
/// that differs from them in case only is no stop word.
pub open spec fn stop_word_set() -> Set<Seq<char>> {
    set![seq!['a'], seq!['d', 'i', 'a']]
}

/// Holds of the tokens that are not in `stop_words`.
pub open spec fn kept_by(stop_words: Set<Seq<char>>) -> spec_fn(Seq<char>) -> bool {
    |token: Seq<char>| !stop_words.contains(token)
}

/// What analysis makes of a text: its tokens without the stop words, in
/// order, repeated tokens kept.
pub open spec fn analysis(text: Seq<char>) -> Seq<Seq<char>> {
    tokens_of(text).filter(kept_by(stop_word_set()))
}

/// Keeps the tokens that are not in `stop_words`, in order.
pub fn stopword_filter(tokens: &Vec<String>, stop_words: &StringHashSet) -> (kept: Vec<String>)
    ensures
        kept.deep_view() == tokens.deep_view().filter(kept_by(stop_words@)),
{
    let ghost names = tokens.deep_view();
    let mut kept: Vec<String> = Vec::new();
    for i in 0..tokens.len()
        invariant
            names == tokens.deep_view(),
            kept.deep_view() == names.take(i as int).filter(kept_by(stop_words@)),
    {
        proof {
            assert(names.take(i + 1) =~= names.take(i as int).push(names[i as int]));
            lemma_filter_push(names.take(i as int), names[i as int], kept_by(stop_words@));
        }
        if !stop_words.contains(tokens[i].as_str()) {
            kept.push(tokens[i].clone());
        }
    }
    assert(names.take(tokens.len() as int) =~= names);
    kept
}

/// Turns text into tokens. It holds the stop words, which are put together
/// once, when the analyzer is made.
pub struct Analyzer {
    stop_words: StringHashSet,
}

impl View for Analyzer {
    type V = Set<Seq<char>>;

    /// The stop words that the analyzer removes.
    closed spec fn view(&self) -> Set<Seq<char>> {
        self.stop_words@
    }
}

impl Analyzer {
    #[verifier::type_invariant]
    spec fn holds_the_stop_words(self) -> bool {
        self.stop_words@ == stop_word_set()
    }

    /// An analyzer with the stop words `a` and `dia`.
    pub fn new() -> (analyzer: Analyzer)
        ensures
            analyzer@ == stop_word_set(),
    {
        let mut stop_words = StringHashSet::new();
        stop_words.insert("a".to_owned());
        stop_words.insert("dia".to_owned());
        proof {
            reveal_strlit("a");
            reveal_strlit("dia");
            assert("a"@ =~= seq!['a']);
            assert("dia"@ =~= seq!['d', 'i', 'a']);
        }
        Analyzer { stop_words }
    }

    /// Tokenizes `text` and removes the stop words.
    pub fn analyze(&self, text: &str) -> (tokens: Vec<String>)
        ensures
            tokens.deep_view() == analysis(text@),
    {
        proof {
            use_type_invariant(self);
        }
        let tokens = tokenize(text);
        stopword_filter(&tokens, &self.stop_words)
    }
}

/// Analysis keeps exactly the tokens of the text that are neither `a` nor
/// `dia`.
pub proof fn lemma_analysis(text: Seq<char>)
    ensures
        forall|token: Seq<char>|
            analysis(text).contains(token) <==> {
                &&& tokens_of(text).contains(token)
                &&& token != seq!['a']
                &&& token != seq!['d', 'i', 'a']
            },
{
    assert forall|token: Seq<char>|
        analysis(text).contains(token) <==> {
            &&& tokens_of(text).contains(token)
            &&& token != seq!['a']
            &&& token != seq!['d', 'i', 'a']
        } by {
        lemma_filter_contains(tokens_of(text), kept_by(stop_word_set()), token);
    }
}

} // verus!
