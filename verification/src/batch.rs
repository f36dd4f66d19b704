//! Batches of raw answers: which of their pairs are answers, which give
//! errors, and what taking a batch in does to the answers held.

use vstd::prelude::*;
use crate::answers::{
    all_valid, insert_all, lemma_insert_all_concat, lemma_insert_all_keeps, ordered,
};
use crate::order::lawful_order;
use crate::rating::{NetPromoterScoreError, MAX_RATING};
use crate::response::{Answer, SurveyResponse};

verus! {

/// The ratings of a batch of pairs, in input order.
pub open spec fn ratings_of<T>(pairs: Seq<(T, u8)>) -> Seq<u8> {
    pairs.map_values(|p: (T, u8)| p.1)
}

/// Every rating of a run lies on the scale.
pub open spec fn all_on_scale(raw: Seq<u8>) -> bool {
    forall|i: int| 0 <= i < raw.len() ==> #[trigger] raw[i] <= MAX_RATING
}

/// The errors a run of raw ratings gives: one for each rating above the
/// scale, in input order, carrying that rating.
pub open spec fn refused(raw: Seq<u8>) -> Seq<NetPromoterScoreError> {
    raw.filter(|r: u8| r > MAX_RATING).map_values(|r: u8| NetPromoterScoreError::InvalidRating(r))
}

/// The answers a batch of pairs holds: those with a rating on the scale, in
/// input order.
pub open spec fn accepted<T>(pairs: Seq<(T, u8)>) -> Seq<Answer<T>> {
    pairs.filter(|p: (T, u8)| p.1 <= MAX_RATING).map_values(
        |p: (T, u8)| Answer { id: p.0, rating: p.1 as int },
    )
}

/// `s` after a batch of pairs was taken in: its answers are put in one after
/// the other, and the pairs with a rating above the scale are passed over.
pub open spec fn apply<T: Ord>(s: Seq<Answer<T>>, pairs: Seq<(T, u8)>) -> Seq<Answer<T>> {
    insert_all(s, accepted(pairs))
}

/// The answers among the items of a stream: the responses of the items
/// that hold one, in input order.
pub open spec fn kept<T>(items: Seq<Result<SurveyResponse<T>, NetPromoterScoreError>>) -> Seq<
    Answer<T>,
> {
    items.filter(|item: Result<SurveyResponse<T>, NetPromoterScoreError>| item is Ok).map_values(
        |item: Result<SurveyResponse<T>, NetPromoterScoreError>| item->Ok_0@,
    )
}

/// The ratings of rating/count pairs written out: each rating as often as
/// its count says, in input order.
pub open spec fn spread(groups: Seq<(u8, usize)>) -> Seq<u8>
    decreases groups.len(),
{
    if groups.len() == 0 {
        Seq::empty()
    } else {
        spread(groups.drop_last()) + Seq::new(groups.last().1 as nat, |i: int| groups.last().0)
    }
}

/// Ratings paired with the ids 1, 2, 3, ... in input order.
pub open spec fn numbered(raw: Seq<u8>) -> Seq<(i32, u8)> {
    Seq::new(raw.len(), |i: int| ((i + 1) as i32, raw[i]))
}

/// The errors of a run of ratings with one more rating behind it.
pub proof fn lemma_refused_push(raw: Seq<u8>, r: u8)
    ensures
        refused(raw.push(r)) == if r > MAX_RATING {
            refused(raw).push(NetPromoterScoreError::InvalidRating(r))
        } else {
            refused(raw)
        },
{
    broadcast use Seq::lemma_filter_push;

    assert(refused(raw.push(r)) =~= if r > MAX_RATING {
        refused(raw).push(NetPromoterScoreError::InvalidRating(r))
    } else {
        refused(raw)
    });
}

/// The errors of two runs of ratings joined are the errors of the first
/// followed by those of the second.
pub proof fn lemma_refused_concat(a: Seq<u8>, b: Seq<u8>)
    ensures
        refused(a + b) == refused(a) + refused(b),
{
    broadcast use Seq::filter_distributes_over_add;

    assert(refused(a + b) =~= refused(a) + refused(b));
}

/// No error comes up exactly when every rating lies on the scale.
pub proof fn lemma_refused_none(raw: Seq<u8>)
    ensures
        refused(raw).len() == 0 <==> all_on_scale(raw),
    decreases raw.len(),
{
    if raw.len() > 0 {
        lemma_refused_none(raw.drop_last());
        lemma_refused_push(raw.drop_last(), raw.last());
        assert(raw.drop_last().push(raw.last()) =~= raw);
        if refused(raw).len() == 0 {
            assert forall|i: int| 0 <= i < raw.len() implies #[trigger] raw[i] <= MAX_RATING by {
                if i < raw.len() - 1 {
                    assert(raw.drop_last()[i] == raw[i]);
                }
            }
        } else if raw.last() <= MAX_RATING {
            let front = raw.drop_last();
            let w = choose|i: int| 0 <= i < front.len() && !(#[trigger] front[i] <= MAX_RATING);
            assert(raw[w] == front[w]);
        }
    }
}

/// The answers of a batch with one more pair behind it.
pub proof fn lemma_accepted_push<T>(pairs: Seq<(T, u8)>, p: (T, u8))
    ensures
        accepted(pairs.push(p)) == if p.1 <= MAX_RATING {
            accepted(pairs).push(Answer { id: p.0, rating: p.1 as int })
        } else {
            accepted(pairs)
        },
{
    broadcast use Seq::lemma_filter_push;

    assert(accepted(pairs.push(p)) =~= if p.1 <= MAX_RATING {
        accepted(pairs).push(Answer { id: p.0, rating: p.1 as int })
    } else {
        accepted(pairs)
    });
}

/// The answers of two batches joined are the answers of the first followed
/// by those of the second.
pub proof fn lemma_accepted_concat<T>(a: Seq<(T, u8)>, b: Seq<(T, u8)>)
    ensures
        accepted(a + b) == accepted(a) + accepted(b),
{
    broadcast use Seq::filter_distributes_over_add;

    assert(accepted(a + b) =~= accepted(a) + accepted(b));
}

/// Every answer of a batch has its rating on the scale.
pub proof fn lemma_accepted_valid<T>(pairs: Seq<(T, u8)>)
    ensures
        all_valid(accepted(pairs)),
{
    broadcast use Seq::lemma_filter_pred;

    let kept = pairs.filter(|p: (T, u8)| p.1 <= MAX_RATING);
    let answers = accepted(pairs);
    assert forall|i: int| 0 <= i < answers.len() implies (#[trigger] answers[i]).valid() by {
        assert(kept[i].1 <= MAX_RATING);
    }
}

/// Taking in a batch keeps every rating on the scale and the answers in the
/// order of their ids.
pub proof fn lemma_apply_keeps<T: Ord>(s: Seq<Answer<T>>, pairs: Seq<(T, u8)>)
    requires
        all_valid(s),
    ensures
        all_valid(apply(s, pairs)),
        lawful_order::<T>() && ordered(s) ==> ordered(apply(s, pairs)),
{
    lemma_accepted_valid(pairs);
    lemma_insert_all_keeps(s, accepted(pairs));
}

/// Taking in two batches one after the other is taking in the joined batch.
pub proof fn lemma_apply_concat<T: Ord>(s: Seq<Answer<T>>, a: Seq<(T, u8)>, b: Seq<(T, u8)>)
    ensures
        apply(s, a + b) == apply(apply(s, a), b),
{
    lemma_accepted_concat(a, b);
    lemma_insert_all_concat(s, accepted(a), accepted(b));
}

/// The ratings of two batches joined.
pub proof fn lemma_ratings_of_concat<T>(a: Seq<(T, u8)>, b: Seq<(T, u8)>)
    ensures
        ratings_of(a + b) == ratings_of(a) + ratings_of(b),
{
    assert(ratings_of(a + b) =~= ratings_of(a) + ratings_of(b));
}

/// Writing out the first `n + 1` rating/count pairs adds the ratings of
/// pair `n` to those of the first `n`.
pub proof fn lemma_spread_next(groups: Seq<(u8, usize)>, n: int)
    requires
        0 <= n < groups.len(),
    ensures
        spread(groups.take(n + 1)) == spread(groups.take(n)) + Seq::new(
            groups[n].1 as nat,
            |i: int| groups[n].0,
        ),
        spread(groups.take(n + 1)).len() == spread(groups.take(n)).len() + groups[n].1,
{
    assert(groups.take(n + 1).drop_last() =~= groups.take(n));
}

/// The ratings written out grow with the number of pairs taken.
pub proof fn lemma_spread_grows(groups: Seq<(u8, usize)>, n: int)
    requires
        0 <= n <= groups.len(),
    ensures
        spread(groups.take(n)).len() <= spread(groups).len(),
    decreases groups.len() - n,
{
    if n < groups.len() {
        lemma_spread_next(groups, n);
        lemma_spread_grows(groups, n + 1);
    } else {
        assert(groups.take(n) =~= groups);
    }
}

/// A batch without pairs holds no answers, gives no errors and leaves the
/// answers as they were.
pub proof fn lemma_batch_start<T: Ord>(s: Seq<Answer<T>>)
    ensures
        ratings_of(Seq::<(T, u8)>::empty()) == Seq::<u8>::empty(),
        refused(Seq::<u8>::empty()) == Seq::<NetPromoterScoreError>::empty(),
        accepted(Seq::<(T, u8)>::empty()) == Seq::<Answer<T>>::empty(),
        apply(s, Seq::<(T, u8)>::empty()) == s,
        spread(Seq::<(u8, usize)>::empty()) == Seq::<u8>::empty(),
{
    broadcast use Seq::lemma_filter_len;

    assert(ratings_of(Seq::<(T, u8)>::empty()) =~= Seq::<u8>::empty());
    assert(refused(Seq::<u8>::empty()) =~= Seq::<NetPromoterScoreError>::empty());
    assert(accepted(Seq::<(T, u8)>::empty()) =~= Seq::<Answer<T>>::empty());
}

/// A batch whose ratings all lie on the scale holds one answer for each
/// pair.
pub proof fn lemma_all_accepted<T>(pairs: Seq<(T, u8)>)
    ensures
        all_on_scale(ratings_of(pairs)) ==> accepted(pairs).len() == pairs.len(),
    decreases pairs.len(),
{
    if pairs.len() > 0 {
        let front = pairs.drop_last();
        if all_on_scale(ratings_of(pairs)) {
            assert forall|i: int| 0 <= i < front.len() implies #[trigger] ratings_of(front)[i]
                <= MAX_RATING by {
                assert(ratings_of(front)[i] == ratings_of(pairs)[i]);
            }
            assert(ratings_of(pairs)[pairs.len() - 1] == pairs.last().1);
        }
        lemma_all_accepted(front);
        lemma_accepted_push(front, pairs.last());
        assert(front.push(pairs.last()) =~= pairs);
    } else {
        broadcast use Seq::lemma_filter_len;

    }
}

/// A stream without items holds no response.
pub proof fn lemma_kept_start<T>()
    ensures
        kept(Seq::<Result<SurveyResponse<T>, NetPromoterScoreError>>::empty()) == Seq::<
            Answer<T>,
        >::empty(),
{
    broadcast use Seq::lemma_filter_len;

    assert(kept(Seq::<Result<SurveyResponse<T>, NetPromoterScoreError>>::empty()) =~= Seq::<
        Answer<T>,
    >::empty());
}

/// The responses of a stream with one more item behind it.
pub proof fn lemma_kept_push<T>(
    items: Seq<Result<SurveyResponse<T>, NetPromoterScoreError>>,
    item: Result<SurveyResponse<T>, NetPromoterScoreError>,
)
    ensures
        kept(items.push(item)) == match item {
            Ok(response) => kept(items).push(response@),
            Err(_) => kept(items),
        },
{
    broadcast use Seq::lemma_filter_push;

    assert(kept(items.push(item)) =~= match item {
        Ok(response) => kept(items).push(response@),
        Err(_) => kept(items),
    });
}

} // verus!
