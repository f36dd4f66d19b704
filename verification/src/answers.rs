//! Answers kept in the order of their ids, at most one per id: what putting
//! an answer in means, and the laws it obeys.

use vstd::prelude::*;
use crate::order::{lawful_order, lemma_strict_total_order, precedes};
use crate::response::Answer;

verus! {

/// The ids rise strictly from one answer to the next, so no id occurs twice.
pub open spec fn ordered<T: Ord>(s: Seq<Answer<T>>) -> bool {
    forall|i: int, j: int|
        #![trigger s[i], s[j]]
        0 <= i < j < s.len() ==> precedes(s[i].id, s[j].id)
}

/// Every rating lies on the scale `0..=10`.
pub open spec fn all_valid<T>(s: Seq<Answer<T>>) -> bool {
    forall|i: int| 0 <= i < s.len() ==> (#[trigger] s[i]).valid()
}

/// How many answers of `s` come from an id before `id`.
pub open spec fn rank<T: Ord>(s: Seq<Answer<T>>, id: T) -> nat {
    s.filter(|e: Answer<T>| precedes(e.id, id)).len()
}

/// The answers before position `k` come from ids before `id`, the others do not.
pub open spec fn splits_at<T: Ord>(s: Seq<Answer<T>>, id: T, k: int) -> bool {
    &&& 0 <= k <= s.len()
    &&& forall|i: int| 0 <= i < k ==> precedes((#[trigger] s[i]).id, id)
    &&& forall|i: int| k <= i < s.len() ==> !precedes((#[trigger] s[i]).id, id)
}

/// `s` after `e` was put in: `e` stands in place of the answer from the same
/// id where there is one, and otherwise behind the answers from earlier ids.
pub open spec fn upsert<T: Ord>(s: Seq<Answer<T>>, e: Answer<T>) -> Seq<Answer<T>> {
    let k = rank(s, e.id) as int;
    if k < s.len() && s[k].id == e.id {
        s.update(k, e)
    } else {
        s.insert(k, e)
    }
}

/// `s` after the answers `es` were put in one after the other.
pub open spec fn insert_all<T: Ord>(s: Seq<Answer<T>>, es: Seq<Answer<T>>) -> Seq<Answer<T>> {
    es.fold_left(s, |acc: Seq<Answer<T>>, e: Answer<T>| upsert(acc, e))
}

/// Some answer of `s` comes from `id`.
pub open spec fn has_id<T>(s: Seq<Answer<T>>, id: T) -> bool {
    exists|i: int| 0 <= i < s.len() && (#[trigger] s[i]).id == id
}

/// The ratings by id: what a lookup by respondent sees.
pub open spec fn ratings<T>(s: Seq<Answer<T>>) -> Map<T, int> {
    Map::new(
        |id: T| has_id(s, id),
        |id: T| s[choose|i: int| 0 <= i < s.len() && (#[trigger] s[i]).id == id].rating,
    )
}

/// A position that splits `s` around `id` is the rank of `id`.
pub proof fn lemma_split_is_rank<T: Ord>(s: Seq<Answer<T>>, id: T, k: int)
    requires
        splits_at(s, id, k),
    ensures
        rank(s, id) == k,
    decreases s.len(),
{
    let p = |e: Answer<T>| precedes(e.id, id);
    reveal(Seq::filter);
    if s.len() > 0 {
        let front = s.drop_last();
        if k == s.len() {
            assert(p(s.last()));
            lemma_split_is_rank(front, id, k - 1);
        } else {
            assert(!p(s.last()));
            lemma_split_is_rank(front, id, k);
        }
    }
}

/// In an ordered sequence the answers from ids before `id` stand first.
pub proof fn lemma_rank_splits<T: Ord>(s: Seq<Answer<T>>, id: T)
    requires
        lawful_order::<T>(),
        ordered(s),
    ensures
        splits_at(s, id, rank(s, id) as int),
    decreases s.len(),
{
    let p = |e: Answer<T>| precedes(e.id, id);
    reveal(Seq::filter);
    if s.len() > 0 {
        let front = s.drop_last();
        let last = s.len() - 1;
        assert(forall|i: int| 0 <= i < last ==> front[i] == s[i]);
        assert(ordered(front));
        lemma_rank_splits(front, id);
        if p(s.last()) {
            assert forall|i: int| 0 <= i < s.len() implies precedes((#[trigger] s[i]).id, id) by {
                if i < last {
                    assert(precedes(s[i].id, s[last].id));
                    lemma_strict_total_order(s[i].id, s[last].id, id);
                }
            }
            lemma_split_is_rank(front, id, last);
            assert(rank(s, id) == s.len());
        } else {
            assert(rank(s, id) == rank(front, id));
        }
    }
}

/// No two answers of an ordered sequence come from the same id.
pub proof fn lemma_ordered_ids_differ<T: Ord>(s: Seq<Answer<T>>, i: int, j: int)
    requires
        lawful_order::<T>(),
        ordered(s),
        0 <= i < s.len(),
        0 <= j < s.len(),
        s[i].id == s[j].id,
    ensures
        i == j,
{
    lemma_strict_total_order(s[i].id, s[j].id, s[j].id);
    if i < j {
        assert(precedes(s[i].id, s[j].id));
    } else if j < i {
        assert(precedes(s[j].id, s[i].id));
    }
}

/// Where `e` goes when it is put into an ordered sequence: to the rank of
/// its id, in place of the answer there if that one comes from the same id,
/// and in front of it otherwise; no other answer comes from that id.
pub proof fn lemma_upsert_place<T: Ord>(s: Seq<Answer<T>>, e: Answer<T>)
    requires
        lawful_order::<T>(),
        ordered(s),
    ensures
        splits_at(s, e.id, rank(s, e.id) as int),
        splits_at(upsert(s, e), e.id, rank(s, e.id) as int),
        rank(upsert(s, e), e.id) == rank(s, e.id),
        upsert(s, e)[rank(s, e.id) as int] == e,
        has_id(s, e.id) ==> upsert(s, e) == s.update(rank(s, e.id) as int, e),
        !has_id(s, e.id) ==> upsert(s, e) == s.insert(rank(s, e.id) as int, e),
        upsert(s, e).len() == s.len() + if has_id(s, e.id) { 0int } else { 1int },
{
    let k = rank(s, e.id) as int;
    let t = upsert(s, e);
    lemma_rank_splits(s, e.id);
    lemma_strict_total_order(e.id, e.id, e.id);
    if k < s.len() && s[k].id == e.id {
        assert(has_id(s, e.id));
    } else {
        assert forall|i: int| 0 <= i < s.len() implies (#[trigger] s[i]).id != e.id by {
            if i > k {
                assert(precedes(s[k].id, s[i].id));
            }
        }
        assert(!has_id(s, e.id));
    }
    assert(splits_at(t, e.id, k)) by {
        assert forall|i: int| 0 <= i < k implies precedes((#[trigger] t[i]).id, e.id) by {
            assert(t[i] == s[i]);
        }
        assert forall|i: int| k <= i < t.len() implies !precedes((#[trigger] t[i]).id, e.id) by {
            if i > k {
                if t.len() == s.len() {
                    assert(t[i] == s[i]);
                } else {
                    assert(t[i] == s[i - 1]);
                }
            }
        }
    }
    lemma_split_is_rank(t, e.id, k);
}

/// Putting an answer into an ordered sequence leaves it ordered.
pub proof fn lemma_upsert_ordered<T: Ord>(s: Seq<Answer<T>>, e: Answer<T>)
    requires
        lawful_order::<T>(),
        ordered(s),
    ensures
        ordered(upsert(s, e)),
{
    let k = rank(s, e.id) as int;
    let t = upsert(s, e);
    lemma_upsert_place(s, e);
    if has_id(s, e.id) {
        let w = choose|i: int| 0 <= i < s.len() && (#[trigger] s[i]).id == e.id;
        lemma_strict_total_order(s[w].id, e.id, e.id);
        assert(w == k);
        assert forall|i: int, j: int| 0 <= i < j < t.len() implies precedes(
            #[trigger] t[i].id,
            #[trigger] t[j].id,
        ) by {
            assert(t[i].id == s[i].id);
            assert(t[j].id == s[j].id);
        }
    } else {
        assert forall|i: int, j: int| 0 <= i < j < t.len() implies precedes(
            #[trigger] t[i].id,
            #[trigger] t[j].id,
        ) by {
            if j < k {
                assert(t[i] == s[i] && t[j] == s[j]);
            } else if j == k {
                assert(t[i] == s[i]);
            } else if i == k {
                assert(t[j] == s[j - 1]);
                assert(s[k].id != e.id);
                lemma_strict_total_order(e.id, s[k].id, s[j - 1].id);
                if j - 1 > k {
                    assert(precedes(s[k].id, s[j - 1].id));
                }
            } else if i < k {
                assert(t[i] == s[i] && t[j] == s[j - 1]);
            } else {
                assert(t[i] == s[i - 1] && t[j] == s[j - 1]);
            }
        }
    }
}

/// Putting a valid answer into a sequence of valid answers leaves all valid.
pub proof fn lemma_upsert_valid<T: Ord>(s: Seq<Answer<T>>, e: Answer<T>)
    requires
        all_valid(s),
        e.valid(),
    ensures
        all_valid(upsert(s, e)),
{
    let k = rank(s, e.id) as int;
    let t = upsert(s, e);
    s.lemma_filter_len(|x: Answer<T>| precedes(x.id, e.id));
    assert forall|i: int| 0 <= i < t.len() implies (#[trigger] t[i]).valid() by {
        if t.len() == s.len() {
            if i != k {
                assert(t[i] == s[i]);
            }
        } else {
            if i < k {
                assert(t[i] == s[i]);
            } else if i > k {
                assert(t[i] == s[i - 1]);
            }
        }
    }
}

/// A lookup by the id of an answer of an ordered sequence finds its rating.
pub proof fn lemma_ratings_at<T: Ord>(s: Seq<Answer<T>>, i: int)
    requires
        lawful_order::<T>(),
        ordered(s),
        0 <= i < s.len(),
    ensures
        ratings(s).contains_key(s[i].id),
        ratings(s)[s[i].id] == s[i].rating,
{
    let id = s[i].id;
    assert(has_id(s, id));
    let w = choose|j: int| 0 <= j < s.len() && (#[trigger] s[j]).id == id;
    lemma_ordered_ids_differ(s, w, i);
}

/// Seen by id, putting an answer in is an insertion into a map: the rating
/// of its id is set, and every other id keeps its rating.
pub proof fn lemma_upsert_ratings<T: Ord>(s: Seq<Answer<T>>, e: Answer<T>)
    requires
        lawful_order::<T>(),
        ordered(s),
    ensures
        ratings(upsert(s, e)) == ratings(s).insert(e.id, e.rating),
{
    let k = rank(s, e.id) as int;
    let t = upsert(s, e);
    lemma_upsert_place(s, e);
    lemma_upsert_ordered(s, e);
    lemma_ratings_at(t, k);
    let target = ratings(s).insert(e.id, e.rating);
    assert forall|id: T| target.contains_key(id) implies #[trigger] ratings(t).contains_key(id)
        && ratings(t)[id] == target[id] by {
        if id != e.id {
            let w = choose|j: int| 0 <= j < s.len() && (#[trigger] s[j]).id == id;
            lemma_ratings_at(s, w);
            let v = if t.len() == s.len() || w < k {
                w
            } else {
                w + 1
            };
            assert(t[v] == s[w]);
            lemma_ratings_at(t, v);
        }
    }
    assert forall|id: T| #[trigger] ratings(t).contains_key(id) implies target.contains_key(
        id,
    ) by {
        if id != e.id {
            let v = choose|j: int| 0 <= j < t.len() && (#[trigger] t[j]).id == id;
            let w = if t.len() == s.len() || v < k {
                v
            } else {
                v - 1
            };
            assert(s[w] == t[v]);
            assert(has_id(s, id));
        }
    }
    assert(ratings(t) =~= target);
}

/// After an answer was put into an ordered sequence it is the only answer
/// from its id.
pub proof fn lemma_one_answer_per_id<T: Ord>(s: Seq<Answer<T>>, e: Answer<T>, i: int)
    requires
        lawful_order::<T>(),
        ordered(s),
        0 <= i < upsert(s, e).len(),
        upsert(s, e)[i].id == e.id,
    ensures
        upsert(s, e)[i] == e,
        i == rank(s, e.id),
{
    lemma_upsert_place(s, e);
    lemma_upsert_ordered(s, e);
    lemma_ordered_ids_differ(upsert(s, e), i, rank(s, e.id) as int);
}

/// Of two answers from the same id put in one after the other, only the
/// second is kept.
pub proof fn lemma_last_write_wins<T: Ord>(s: Seq<Answer<T>>, first: Answer<T>, second: Answer<T>)
    requires
        lawful_order::<T>(),
        ordered(s),
        first.id == second.id,
    ensures
        upsert(upsert(s, first), second) == upsert(s, second),
{
    let k = rank(s, first.id) as int;
    let t = upsert(s, first);
    lemma_upsert_place(s, first);
    lemma_upsert_place(s, second);
    assert(has_id(t, second.id)) by {
        assert(t[k].id == second.id);
    }
    assert(upsert(t, second) =~= upsert(s, second));
}

/// Putting in one more answer after a run of answers.
pub proof fn lemma_insert_all_push<T: Ord>(s: Seq<Answer<T>>, es: Seq<Answer<T>>, e: Answer<T>)
    ensures
        insert_all(s, es.push(e)) == upsert(insert_all(s, es), e),
{
    assert(es.push(e).drop_last() =~= es);
}

/// Putting in two runs of answers one after the other is putting in the
/// joined run.
pub proof fn lemma_insert_all_concat<T: Ord>(
    s: Seq<Answer<T>>,
    a: Seq<Answer<T>>,
    b: Seq<Answer<T>>,
)
    ensures
        insert_all(s, a + b) == insert_all(insert_all(s, a), b),
    decreases b.len(),
{
    if b.len() == 0 {
        assert(a + b =~= a);
    } else {
        lemma_insert_all_concat(s, a, b.drop_last());
        assert((a + b).drop_last() =~= a + b.drop_last());
    }
}

/// Putting valid answers into an ordered sequence of valid answers leaves
/// it ordered and all its answers valid.
pub proof fn lemma_insert_all_keeps<T: Ord>(s: Seq<Answer<T>>, es: Seq<Answer<T>>)
    requires
        all_valid(s),
        all_valid(es),
    ensures
        all_valid(insert_all(s, es)),
        lawful_order::<T>() && ordered(s) ==> ordered(insert_all(s, es)),
    decreases es.len(),
{
    if es.len() > 0 {
        lemma_insert_all_keeps(s, es.drop_last());
        lemma_upsert_valid(insert_all(s, es.drop_last()), es.last());
        if lawful_order::<T>() && ordered(s) {
            lemma_upsert_ordered(insert_all(s, es.drop_last()), es.last());
        }
    }
}

} // verus!
