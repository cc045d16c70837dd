//! The inverted index: from each token to the ids of the documents that
//! hold it.

use vstd::prelude::*;
use vstd::hash_map::StringHashMap;
use crate::analyzer::{analysis, Analyzer};
use crate::model::{
    all_tidy, ingested, lemma_present_lists_push, matching, posted, posted_all, postings_of,
    present_lists, raw_lists, Postings,
};
use crate::postings::{
    append_id, deduplicate, intersection, lemma_appended_tidy, lemma_common_to_more,
    lemma_common_to_one, tidy,
};

verus! {

/// A text to index, under an id that the caller chooses. Ids need not be
/// unique.
#[derive(Debug)]
pub struct Document {
    pub id: usize,
    pub text: String,
}

/// An inverted index. It starts empty and only grows: documents are taken
/// in, never removed or changed.
pub struct InvertedIndex {
    analyzer: Analyzer,
    table: StringHashMap<Vec<usize>>,
}

/// The posting lists that a table of vectors stands for.
spec fn lists_of(table: Map<Seq<char>, Vec<usize>>) -> Postings {
    table.map_values(|ids: Vec<usize>| ids@)
}

/// Posts `id` under `token` in `table`.
fn post(table: &mut StringHashMap<Vec<usize>>, token: String, id: usize)
    requires
        all_tidy(lists_of(old(table)@)),
    ensures
        lists_of(final(table)@) == posted(lists_of(old(table)@), token@, id),
        all_tidy(lists_of(final(table)@)),
{
    let ghost before = lists_of(table@);
    let longer = match table.get(token.as_str()) {
        Some(ids) => append_id(ids, id),
        None => {
            let mut list: Vec<usize> = Vec::new();
            list.push(id);
            Some(list)
        },
    };
    proof {
        lemma_appended_tidy(postings_of(before, token@), id);
    }
    match longer {
        Some(list) => {
            table.insert(token, list);
        },
        None => {},
    }
}

impl View for InvertedIndex {
    type V = Postings;

    /// The posting list of each token that the index knows.
    closed spec fn view(&self) -> Postings {
        lists_of(self.table@)
    }
}

impl InvertedIndex {
    #[verifier::type_invariant]
    spec fn keeps_lists_tidy(self) -> bool {
        all_tidy(lists_of(self.table@))
    }

    /// An index that knows no token.
    pub fn new() -> (index: InvertedIndex)
        ensures
            index@ == Postings::empty(),
    {
        InvertedIndex { analyzer: Analyzer::new(), table: StringHashMap::new() }
    }

    /// Takes `docs` in, in order: each is analyzed, and its id posted under
    /// each of its tokens, in order. An id is not posted to a list that
    /// ends in it; so every list stays tidy.
    pub fn insert(&mut self, docs: Vec<Document>)
        ensures
            final(self)@ == ingested(old(self)@, docs@),
            all_tidy(final(self)@),
    {
        proof {
            use_type_invariant(&*self);
        }
        let mut table: StringHashMap<Vec<usize>> = StringHashMap::new();
        std::mem::swap(&mut table, &mut self.table);
        for i in 0..docs.len()
            invariant
                all_tidy(lists_of(table@)),
                lists_of(table@) == ingested(old(self)@, docs@.take(i as int)),
        {
            let id = docs[i].id;
            let tokens = self.analyzer.analyze(docs[i].text.as_str());
            let ghost start = lists_of(table@);
            let ghost names = tokens.deep_view();
            for token in it: tokens
                invariant
                    it.seq().map_values(|t: String| t@) == names,
                    all_tidy(lists_of(table@)),
                    lists_of(table@) == posted_all(start, names.take(it.index()), id),
            {
                assert(names.take(it.index() + 1).drop_last() =~= names.take(it.index()));
                post(&mut table, token, id);
            }
            assert(docs@.take(i + 1).drop_last() =~= docs@.take(i as int));
        }
        self.table = table;
    }

    /// The ids of the documents that hold every token of `query` that the
    /// index knows. Posting lists are intersected as sets: their order does
    /// not matter, and no id is reported twice.
    pub fn search(&self, query: &str) -> (result: Vec<usize>)
        ensures
            result@ == matching(self@, analysis(query@)),
    {
        let tokens = self.analyzer.analyze(query);
        let ghost names = tokens.deep_view();
        let mut result: Vec<usize> = Vec::new();
        let mut narrowing = false;
        for k in 0..tokens.len()
            invariant
                names == tokens.deep_view(),
                narrowing == (present_lists(self@, names.take(k as int)).len() > 0),
                result@ == matching(self@, names.take(k as int)),
        {
            let ghost lists = present_lists(self@, names.take(k as int));
            proof {
                assert(names.take(k + 1) =~= names.take(k as int).push(names[k as int]));
                lemma_present_lists_push(self@, names.take(k as int), names[k as int]);
            }
            match self.table.get(tokens[k].as_str()) {
                Some(ids) => {
                    if narrowing {
                        proof {
                            lemma_common_to_more(lists, ids@);
                        }
                        result = intersection(&result, ids);
                    } else {
                        proof {
                            assert(lists.push(ids@) =~= seq![ids@]);
                            lemma_common_to_one(ids@);
                        }
                        result = deduplicate(ids);
                        narrowing = true;
                    }
                },
                None => {},
            }
        }
        assert(names.take(tokens.len() as int) =~= names);
        result
    }

    /// The posting list of `token`, in insertion order; empty if the index
    /// does not know the token.
    pub fn postings(&self, token: &str) -> (ids: Vec<usize>)
        ensures
            ids@ == postings_of(self@, token@),
            self@.contains_key(token@) ==> tidy(ids@),
    {
        proof {
            use_type_invariant(self);
        }
        match self.table.get(token) {
            Some(ids) => ids.clone(),
            None => Vec::new(),
        }
    }

    /// The posting lists of the tokens of `query`, one for each token and in
    /// their order, not combined in any way. A token that the index does
    /// not know has an empty list.
    pub fn search_raw(&self, query: &str) -> (lists: Vec<Vec<usize>>)
        ensures
            lists.deep_view() == raw_lists(self@, analysis(query@)),
    {
        let tokens = self.analyzer.analyze(query);
        let ghost names = tokens.deep_view();
        let mut lists: Vec<Vec<usize>> = Vec::new();
        for k in 0..tokens.len()
            invariant
                names == tokens.deep_view(),
                lists.deep_view() == raw_lists(self@, names.take(k as int)),
        {
            let ghost before = lists.deep_view();
            let ids = self.postings(tokens[k].as_str());
            assert(ids.deep_view() =~= ids@);
            lists.push(ids);
            assert(lists.deep_view() =~= before.push(postings_of(self@, names[k as int])));
        }
        lists
    }
}

} // verus!
