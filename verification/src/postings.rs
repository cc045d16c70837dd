//! Posting lists: document ids in the order in which they were inserted.
//!
//! A list is extended at its end only ([`appended`]), and an id is not
//! added directly after itself. That is all that keeps ids from repeating:
//! a list is no set, and it is not sorted. Lists are therefore combined
//! without any assumption about their order ([`common`]).

use vstd::prelude::*;
use std::collections::HashSet;
use crate::seqs::{
    lemma_filter_all, lemma_filter_contains, lemma_filter_no_duplicates, lemma_filter_push,
    lemma_filter_twice, lemma_take_next,
};

verus! {

broadcast use vstd::std_specs::hash::group_hash_axioms;

/// A posting list as the index keeps it: not empty, and no id directly
/// after itself. An id may still occur twice, with another id in between.
pub open spec fn tidy(ids: Seq<usize>) -> bool {
    &&& ids.len() > 0
    &&& forall|i: int| 0 <= i < ids.len() - 1 ==> #[trigger] ids[i] != ids[i + 1]
}

/// The list after `id` is posted to it: unchanged if `id` is its last
/// entry, else with `id` at its end.
pub open spec fn appended(ids: Seq<usize>, id: usize) -> Seq<usize> {
    if ids.len() > 0 && ids.last() == id {
        ids
    } else {
        ids.push(id)
    }
}

/// The ids of a list, each once, in the order in which they first occur.
pub open spec fn distinct(ids: Seq<usize>) -> Seq<usize>
    decreases ids.len(),
{
    if ids.len() == 0 {
        Seq::empty()
    } else {
        let before = distinct(ids.drop_last());
        if before.contains(ids.last()) {
            before
        } else {
            before.push(ids.last())
        }
    }
}

/// Holds of the ids that occur in `ids`.
pub open spec fn occurs_in(ids: Seq<usize>) -> spec_fn(usize) -> bool {
    |id: usize| ids.contains(id)
}

/// Holds of the ids that occur in every one of `lists`.
pub open spec fn in_all(lists: Seq<Seq<usize>>) -> spec_fn(usize) -> bool {
    |id: usize| forall|i: int| 0 <= i < lists.len() ==> (#[trigger] lists[i]).contains(id)
}

/// The intersection of two lists: the distinct ids of `a` that occur in `b`
/// too, in the order in which they first occur in `a`.
pub open spec fn common(a: Seq<usize>, b: Seq<usize>) -> Seq<usize> {
    distinct(a).filter(occurs_in(b))
}

/// The intersection of any number of lists: the distinct ids of the first
/// that occur in every list, in the order in which they first occur there.
/// Of no lists it is empty.
pub open spec fn common_to_all(lists: Seq<Seq<usize>>) -> Seq<usize> {
    if lists.len() == 0 {
        Seq::empty()
    } else {
        distinct(lists[0]).filter(in_all(lists))
    }
}

/// The list after `id` is posted to it, or nothing where the list stays as
/// it is.
pub fn append_id(ids: &Vec<usize>, id: usize) -> (longer: Option<Vec<usize>>)
    ensures
        match longer {
            Some(list) => list@ == appended(ids@, id) && list@ != ids@,
            None => appended(ids@, id) == ids@,
        },
{
    if ids.len() > 0 && ids[ids.len() - 1] == id {
        None
    } else {
        let mut list = ids.clone();
        list.push(id);
        Some(list)
    }
}

/// Drops every repeated id, keeping the first occurrence of each.
pub fn deduplicate(ids: &Vec<usize>) -> (result: Vec<usize>)
    ensures
        result@ == distinct(ids@),
{
    let mut seen: HashSet<usize> = HashSet::new();
    let mut result: Vec<usize> = Vec::new();
    for i in 0..ids.len()
        invariant
            result@ == distinct(ids@.take(i as int)),
            forall|id: usize| seen@.contains(id) <==> ids@.take(i as int).contains(id),
    {
        let id = ids[i];
        proof {
            lemma_take_next(ids@, i as int);
            lemma_distinct(ids@.take(i as int));
        }
        if seen.insert(id) {
            result.push(id);
        }
    }
    assert(ids@.take(ids.len() as int) =~= ids@);
    result
}

/// Intersects two posting lists, neither of which needs to be sorted: the
/// ids of `a` that occur in `b` too, each once, in the order of `a`.
pub fn intersection(a: &Vec<usize>, b: &Vec<usize>) -> (result: Vec<usize>)
    ensures
        result@ == common(a@, b@),
{
    let mut wanted: HashSet<usize> = HashSet::new();
    for j in 0..b.len()
        invariant
            forall|id: usize| wanted@.contains(id) <==> b@.take(j as int).contains(id),
    {
        proof {
            lemma_take_next(b@, j as int);
        }
        wanted.insert(b[j]);
    }
    assert(b@.take(b.len() as int) =~= b@);
    let mut seen: HashSet<usize> = HashSet::new();
    let mut result: Vec<usize> = Vec::new();
    for i in 0..a.len()
        invariant
            forall|id: usize| wanted@.contains(id) <==> b@.contains(id),
            forall|id: usize| seen@.contains(id) <==> a@.take(i as int).contains(id),
            result@ == common(a@.take(i as int), b@),
    {
        let id = a[i];
        proof {
            lemma_take_next(a@, i as int);
            lemma_distinct(a@.take(i as int));
            lemma_filter_push(distinct(a@.take(i as int)), id, occurs_in(b@));
        }
        if seen.insert(id) && wanted.contains(&id) {
            result.push(id);
        }
    }
    assert(a@.take(a.len() as int) =~= a@);
    result
}

/// Posting to an empty or tidy list gives a tidy list, of which the old
/// list is the beginning.
pub proof fn lemma_appended_tidy(ids: Seq<usize>, id: usize)
    requires
        ids.len() == 0 || tidy(ids),
    ensures
        tidy(appended(ids, id)),
        ids.is_prefix_of(appended(ids, id)),
        appended(ids, id).last() == id,
{
}

/// Posting the same id twice in a row adds it once.
pub proof fn lemma_appended_twice(ids: Seq<usize>, id: usize)
    ensures
        appended(appended(ids, id), id) == appended(ids, id),
{
}

/// Posting an id again after another one adds it again: only a repeat
/// directly after the first is suppressed.
pub proof fn lemma_appended_apart(ids: Seq<usize>, id: usize, other: usize)
    requires
        other != id,
    ensures
        appended(appended(appended(ids, id), other), id) == appended(ids, id).push(other).push(id),
{
}

/// `distinct` repeats no id and loses none.
pub proof fn lemma_distinct(ids: Seq<usize>)
    ensures
        distinct(ids).no_duplicates(),
        forall|id: usize| distinct(ids).contains(id) <==> ids.contains(id),
    decreases ids.len(),
{
    if ids.len() > 0 {
        let init = ids.drop_last();
        let last = ids.last();
        lemma_distinct(init);
        assert forall|id: usize| distinct(ids).contains(id) <==> ids.contains(id) by {
            if ids.contains(id) {
                let i = choose|i: int| 0 <= i < ids.len() && ids[i] == id;
                if i < init.len() {
                    assert(init[i] == id);
                    assert(init.contains(id));
                    let j = choose|j: int|
                        0 <= j < distinct(init).len() && distinct(init)[j] == id;
                    assert(distinct(ids)[j] == id);
                } else if !distinct(init).contains(last) {
                    assert(distinct(ids).last() == id);
                }
            }
            if distinct(ids).contains(id) {
                let j = choose|j: int| 0 <= j < distinct(ids).len() && distinct(ids)[j] == id;
                if j < distinct(init).len() {
                    assert(init.contains(id));
                }
            }
        }
    }
}

/// A list without duplicates is its own `distinct`.
pub proof fn lemma_distinct_of_distinct(ids: Seq<usize>)
    requires
        ids.no_duplicates(),
    ensures
        distinct(ids) == ids,
    decreases ids.len(),
{
    if ids.len() > 0 {
        let init = ids.drop_last();
        lemma_distinct_of_distinct(init);
    }
}

/// The intersection of two lists holds exactly the ids that occur in both,
/// each once.
pub proof fn lemma_common(a: Seq<usize>, b: Seq<usize>)
    ensures
        common(a, b).no_duplicates(),
        forall|id: usize| common(a, b).contains(id) <==> a.contains(id) && b.contains(id),
{
    lemma_distinct(a);
    lemma_filter_no_duplicates(distinct(a), occurs_in(b));
    assert forall|id: usize| common(a, b).contains(id) <==> a.contains(id) && b.contains(id) by {
        lemma_filter_contains(distinct(a), occurs_in(b), id);
    }
}

/// The intersection of any number of lists holds exactly the ids that
/// occur in every list, each once.
pub proof fn lemma_common_to_all(lists: Seq<Seq<usize>>)
    ensures
        common_to_all(lists).no_duplicates(),
        forall|id: usize|
            common_to_all(lists).contains(id) <==> lists.len() > 0 && in_all(lists)(id),
{
    if lists.len() > 0 {
        lemma_distinct(lists[0]);
        lemma_filter_no_duplicates(distinct(lists[0]), in_all(lists));
        assert forall|id: usize|
            common_to_all(lists).contains(id) <==> lists.len() > 0 && in_all(lists)(id) by {
            lemma_filter_contains(distinct(lists[0]), in_all(lists), id);
        }
    }
}

/// The intersection of one list is that list without its repeats.
pub proof fn lemma_common_to_one(list: Seq<usize>)
    ensures
        common_to_all(seq![list]) == distinct(list),
{
    let lists = seq![list];
    lemma_distinct(list);
    assert forall|i: int| 0 <= i < distinct(list).len() implies in_all(lists)(
        #[trigger] distinct(list)[i],
    ) by {
        assert(distinct(list).contains(distinct(list)[i]));
    }
    lemma_filter_all(distinct(list), in_all(lists));
}

/// One more list narrows the intersection to the ids that occur in that
/// list too: the intersection of many lists can be had two lists at a time.
pub proof fn lemma_common_to_more(lists: Seq<Seq<usize>>, next: Seq<usize>)
    requires
        lists.len() > 0,
    ensures
        common_to_all(lists.push(next)) == common(common_to_all(lists), next),
{
    let more = lists.push(next);
    let first = distinct(lists[0]);
    lemma_common_to_all(lists);
    lemma_distinct_of_distinct(common_to_all(lists));
    assert forall|id: usize| #[trigger]
        in_all(more)(id) == (in_all(lists)(id) && occurs_in(next)(id)) by {
        if in_all(more)(id) {
            assert forall|i: int| 0 <= i < lists.len() implies (#[trigger] lists[i]).contains(
                id,
            ) by {
                assert(more[i] == lists[i]);
            }
            assert(more[lists.len() as int] == next);
        }
        if in_all(lists)(id) && occurs_in(next)(id) {
            assert forall|i: int| 0 <= i < more.len() implies (#[trigger] more[i]).contains(
                id,
            ) by {
                if i < lists.len() {
                    assert(more[i] == lists[i]);
                }
            }
        }
    }
    lemma_filter_twice(first, in_all(lists), occurs_in(next), in_all(more));
}

} // verus!
