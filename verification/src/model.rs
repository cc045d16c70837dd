//! The index as a map from tokens to posting lists, and what inserting and
//! querying mean for that map.
//!
//! The contracts of [`InvertedIndex`](crate::index::InvertedIndex) are
//! stated over the functions of this module. The laws that follow from the
//! definitions are proved here.

use vstd::prelude::*;
use crate::analyzer::analysis;
use crate::index::Document;
use crate::postings::{
    appended, common_to_all, in_all, lemma_appended_tidy, lemma_common_to_all, tidy,
};
use crate::seqs::{lemma_filter_contains, lemma_filter_push, lemma_filter_twice};

verus! {

/// What an index holds: for each token that it knows, its posting list.
pub type Postings = Map<Seq<char>, Seq<usize>>;

/// The posting list of a token, empty for a token that the index does not
/// know.
pub open spec fn postings_of(index: Postings, token: Seq<char>) -> Seq<usize> {
    if index.contains_key(token) {
        index[token]
    } else {
        Seq::empty()
    }
}

/// Every posting list of the index is tidy.
pub open spec fn all_tidy(index: Postings) -> bool {
    forall|token: Seq<char>| index.contains_key(token) ==> tidy(#[trigger] index[token])
}

/// `later` has every token of `earlier`, and each list of `earlier` is the
/// beginning of the list in `later`.
pub open spec fn extends(later: Postings, earlier: Postings) -> bool {
    forall|token: Seq<char>| #[trigger]
        earlier.contains_key(token) ==> later.contains_key(token) && earlier[token].is_prefix_of(
            later[token],
        )
}

/// The index after `id` is posted under `token`: a new token gets a list of
/// its own, a known one has `id` appended unless it is the last entry.
pub open spec fn posted(index: Postings, token: Seq<char>, id: usize) -> Postings {
    index.insert(token, appended(postings_of(index, token), id))
}

/// Posts `id` under one more token.
pub open spec fn post_under(id: usize) -> spec_fn(Postings, Seq<char>) -> Postings {
    |index: Postings, token: Seq<char>| posted(index, token, id)
}

/// The index after `id` is posted under each of `tokens`, in order.
pub open spec fn posted_all(index: Postings, tokens: Seq<Seq<char>>, id: usize) -> Postings {
    tokens.fold_left(index, post_under(id))
}

/// Takes in one more document.
pub open spec fn take_in() -> spec_fn(Postings, Document) -> Postings {
    |index: Postings, doc: Document| posted_all(index, analysis(doc.text@), doc.id)
}

/// The index after each of `docs`, in order, is analyzed and its id posted
/// under each of its tokens.
pub open spec fn ingested(index: Postings, docs: Seq<Document>) -> Postings {
    docs.fold_left(index, take_in())
}

/// Holds of the tokens that the index knows.
pub open spec fn known_to(index: Postings) -> spec_fn(Seq<char>) -> bool {
    |token: Seq<char>| index.contains_key(token)
}

/// The posting lists of those of `tokens` that the index knows, in the
/// order of the tokens. A token that it does not know contributes nothing.
pub open spec fn present_lists(index: Postings, tokens: Seq<Seq<char>>) -> Seq<Seq<usize>> {
    tokens.filter(known_to(index)).map_values(|token: Seq<char>| index[token])
}

/// The ids that a query of `tokens` finds: those that occur in the posting
/// list of every token that the index knows, each once, in the order of the
/// first such list. Where the index knows none of the tokens, there are
/// none.
pub open spec fn matching(index: Postings, tokens: Seq<Seq<char>>) -> Seq<usize> {
    common_to_all(present_lists(index, tokens))
}

/// The posting lists of `tokens` as they are, one for each token.
pub open spec fn raw_lists(index: Postings, tokens: Seq<Seq<char>>) -> Seq<Seq<usize>> {
    tokens.map_values(|token: Seq<char>| postings_of(index, token))
}

/// Holds of the lists that have an entry.
pub open spec fn has_entries() -> spec_fn(Seq<usize>) -> bool {
    |ids: Seq<usize>| ids.len() > 0
}

/// Every list of `tokens` in the index ends in `id`.
pub open spec fn all_end_in(index: Postings, tokens: Seq<Seq<char>>, id: usize) -> bool {
    forall|i: int|
        0 <= i < tokens.len() ==> {
            &&& index.contains_key(#[trigger] tokens[i])
            &&& index[tokens[i]].len() > 0
            &&& index[tokens[i]].last() == id
        }
}

/// Posting the same id under the same token twice in a row adds it once.
pub proof fn lemma_posted_twice(index: Postings, token: Seq<char>, id: usize)
    ensures
        posted(posted(index, token, id), token, id) == posted(index, token, id),
{
}

/// Posting an id again after another id was posted under the same token
/// adds it again: a posting list is no set.
pub proof fn lemma_posted_apart(index: Postings, token: Seq<char>, id: usize, other: usize)
    requires
        other != id,
    ensures
        postings_of(posted(posted(posted(index, token, id), token, other), token, id), token)
            == postings_of(posted(index, token, id), token).push(other).push(id),
{
}

/// Posting touches one list: that of any other token stays as it is.
pub proof fn lemma_posted_elsewhere(index: Postings, token: Seq<char>, id: usize, other: Seq<char>)
    requires
        other != token,
    ensures
        posted(index, token, id).contains_key(other) == index.contains_key(other),
        postings_of(posted(index, token, id), other) == postings_of(index, other),
{
}

/// Posting keeps the lists tidy and extends the index: it drops no token,
/// and changes no list but at its end.
pub proof fn lemma_posted_extends(index: Postings, token: Seq<char>, id: usize)
    ensures
        all_tidy(index) ==> all_tidy(posted(index, token, id)),
        extends(posted(index, token, id), index),
{
    if all_tidy(index) {
        lemma_appended_tidy(postings_of(index, token), id);
    }
}

/// Posting under any number of tokens keeps the lists tidy and extends
/// the index.
pub proof fn lemma_posted_all_extends(index: Postings, tokens: Seq<Seq<char>>, id: usize)
    ensures
        all_tidy(index) ==> all_tidy(posted_all(index, tokens, id)),
        extends(posted_all(index, tokens, id), index),
    decreases tokens.len(),
{
    if tokens.len() > 0 {
        let before = posted_all(index, tokens.drop_last(), id);
        lemma_posted_all_extends(index, tokens.drop_last(), id);
        lemma_posted_extends(before, tokens.last(), id);
    }
}

/// The index grows monotonically: taking documents in keeps the lists tidy,
/// drops no token, and changes no list but at its end.
pub proof fn lemma_ingested_extends(index: Postings, docs: Seq<Document>)
    ensures
        all_tidy(index) ==> all_tidy(ingested(index, docs)),
        extends(ingested(index, docs), index),
    decreases docs.len(),
{
    if docs.len() > 0 {
        let before = ingested(index, docs.drop_last());
        lemma_ingested_extends(index, docs.drop_last());
        lemma_posted_all_extends(before, analysis(docs.last().text@), docs.last().id);
    }
}

/// Taking documents in one batch or in two, one after the other, makes no
/// difference.
pub proof fn lemma_ingested_in_batches(index: Postings, first: Seq<Document>, second: Seq<Document>)
    ensures
        ingested(index, first + second) == ingested(ingested(index, first), second),
    decreases second.len(),
{
    if second.len() > 0 {
        lemma_ingested_in_batches(index, first, second.drop_last());
        assert((first + second).drop_last() =~= first + second.drop_last());
    }
}

/// After `id` is posted under `tokens`, the list of each of them ends in
/// `id`.
pub proof fn lemma_posted_all_ends(index: Postings, tokens: Seq<Seq<char>>, id: usize)
    ensures
        all_end_in(posted_all(index, tokens, id), tokens, id),
    decreases tokens.len(),
{
    if tokens.len() > 0 {
        let init = tokens.drop_last();
        let after = posted_all(index, tokens, id);
        lemma_posted_all_ends(index, init, id);
        assert forall|i: int| 0 <= i < tokens.len() implies {
            &&& after.contains_key(#[trigger] tokens[i])
            &&& after[tokens[i]].len() > 0
            &&& after[tokens[i]].last() == id
        } by {
            if i < init.len() && tokens[i] != tokens.last() {
                assert(init[i] == tokens[i]);
            }
        }
    }
}

/// Posting `id` under tokens whose lists all end in `id` changes nothing.
pub proof fn lemma_posted_all_idle(index: Postings, tokens: Seq<Seq<char>>, id: usize)
    requires
        all_end_in(index, tokens, id),
    ensures
        posted_all(index, tokens, id) == index,
    decreases tokens.len(),
{
    if tokens.len() > 0 {
        let init = tokens.drop_last();
        assert(all_end_in(index, init, id));
        lemma_posted_all_idle(index, init, id);
    }
}

/// Taking in the same document twice in a row is taking it in once: no
/// posting list gets its id a second time.
pub proof fn lemma_same_document_twice(index: Postings, doc: Document)
    ensures
        ingested(index, seq![doc, doc]) == ingested(index, seq![doc]),
{
    let tokens = analysis(doc.text@);
    reveal_with_fuel(Seq::fold_left, 3);
    lemma_posted_all_ends(index, tokens, doc.id);
    lemma_posted_all_idle(ingested(index, seq![doc]), tokens, doc.id);
}

/// One more token adds its posting list if the index knows it, and nothing
/// if not.
pub proof fn lemma_present_lists_push(index: Postings, tokens: Seq<Seq<char>>, token: Seq<char>)
    ensures
        present_lists(index, tokens.push(token)) == if index.contains_key(token) {
            present_lists(index, tokens).push(index[token])
        } else {
            present_lists(index, tokens)
        },
{
    lemma_filter_push(tokens, token, known_to(index));
}

/// In an index whose lists are tidy, the lists that a query combines are
/// the raw lists of its tokens without the empty ones.
pub proof fn lemma_present_lists_are_raw(index: Postings, tokens: Seq<Seq<char>>)
    requires
        all_tidy(index),
    ensures
        present_lists(index, tokens) == raw_lists(index, tokens).filter(has_entries()),
    decreases tokens.len(),
{
    reveal(Seq::filter);
    if tokens.len() > 0 {
        let init = tokens.drop_last();
        let token = tokens.last();
        lemma_present_lists_are_raw(index, init);
        assert(tokens =~= init.push(token));
        lemma_present_lists_push(index, init, token);
        assert(raw_lists(index, tokens) =~= raw_lists(index, init).push(postings_of(index, token)));
        lemma_filter_push(raw_lists(index, init), postings_of(index, token), has_entries());
    }
}

/// What a query finds: no id twice, and exactly the ids that occur in the
/// posting list of every token that the index knows, provided that it
/// knows at least one of them.
pub proof fn lemma_matching(index: Postings, tokens: Seq<Seq<char>>)
    ensures
        matching(index, tokens).no_duplicates(),
        forall|id: usize|
            matching(index, tokens).contains(id) <==> {
                &&& exists|i: int| 0 <= i < tokens.len() && index.contains_key(#[trigger] tokens[i])
                &&& forall|i: int|
                    0 <= i < tokens.len() && index.contains_key(#[trigger] tokens[i])
                        ==> index[tokens[i]].contains(id)
            },
{
    let known = tokens.filter(known_to(index));
    let lists = present_lists(index, tokens);
    lemma_common_to_all(lists);
    assert forall|id: usize|
        matching(index, tokens).contains(id) <==> {
            &&& exists|i: int| 0 <= i < tokens.len() && index.contains_key(#[trigger] tokens[i])
            &&& forall|i: int|
                0 <= i < tokens.len() && index.contains_key(#[trigger] tokens[i])
                    ==> index[tokens[i]].contains(id)
        } by {
        if matching(index, tokens).contains(id) {
            lemma_filter_contains(tokens, known_to(index), known[0]);
            assert forall|i: int|
                0 <= i < tokens.len() && index.contains_key(
                    #[trigger] tokens[i],
                ) implies index[tokens[i]].contains(id) by {
                lemma_filter_contains(tokens, known_to(index), tokens[i]);
                let j = choose|j: int| 0 <= j < known.len() && known[j] == tokens[i];
                assert(lists[j] == index[tokens[i]]);
            }
        }
        if (exists|i: int| 0 <= i < tokens.len() && index.contains_key(#[trigger] tokens[i]))
            && (forall|i: int|
            0 <= i < tokens.len() && index.contains_key(#[trigger] tokens[i])
                ==> index[tokens[i]].contains(id)) {
            let w = choose|i: int|
                0 <= i < tokens.len() && index.contains_key(#[trigger] tokens[i]);
            lemma_filter_contains(tokens, known_to(index), tokens[w]);
            assert forall|j: int| 0 <= j < lists.len() implies (#[trigger] lists[j]).contains(
                id,
            ) by {
                lemma_filter_contains(tokens, known_to(index), known[j]);
            }
        }
    }
}

/// A token that the index does not know has an empty list, and contributes
/// nothing to a query: the query finds what it finds without such tokens.
/// Where the index knows none of the tokens, the query finds nothing.
pub proof fn lemma_unknown_tokens(index: Postings, tokens: Seq<Seq<char>>)
    ensures
        forall|token: Seq<char>|
            !index.contains_key(token) ==> #[trigger] postings_of(index, token)
                == Seq::<usize>::empty(),
        matching(index, tokens) == matching(index, tokens.filter(known_to(index))),
        tokens.filter(known_to(index)).len() == 0 ==> matching(index, tokens)
            == Seq::<usize>::empty(),
{
    lemma_filter_twice(tokens, known_to(index), known_to(index), known_to(index));
}

} // verus!
