//! The score of a sequence of answers, and its segments.

use vstd::prelude::*;
use crate::classification::Classification;
use crate::answers::ordered;
use crate::order::precedes;
use crate::response::Answer;

verus! {

/// The answers of `s` that fall into the segment `c`, in the order of `s`.
pub open spec fn segment_of<T>(s: Seq<Answer<T>>, c: Classification) -> Seq<Answer<T>> {
    s.filter(|e: Answer<T>| e.class() == c)
}

/// The share of `part` in `total` as a whole percentage, rounded down.
pub open spec fn percent(part: int, total: int) -> int {
    (100 * part) / total
}

/// The score for given counts: the promoters' percentage less the
/// detractors', each rounded down on its own, and 0 when nobody answered.
pub open spec fn net_score(promoters: int, detractors: int, total: int) -> int {
    if total == 0 {
        0
    } else {
        percent(promoters, total) - percent(detractors, total)
    }
}

/// The score of the answers `s`.
pub open spec fn score_of<T>(s: Seq<Answer<T>>) -> int {
    net_score(
        segment_of(s, Classification::Promoter).len() as int,
        segment_of(s, Classification::Detractor).len() as int,
        s.len() as int,
    )
}

/// A share of a total is a percentage between 0 and 100.
pub proof fn lemma_percent_range(part: int, total: int)
    requires
        0 <= part <= total,
        0 < total,
    ensures
        0 <= percent(part, total) <= 100,
{
    assert(0 <= (100 * part) / total <= 100) by (nonlinear_arith)
        requires
            0 <= part <= total,
            0 < total,
    ;
}

/// The score of any answers lies between -100 and 100.
pub proof fn lemma_score_range<T>(s: Seq<Answer<T>>)
    ensures
        -100 <= score_of(s) <= 100,
{
    let promoters = segment_of(s, Classification::Promoter).len() as int;
    let detractors = segment_of(s, Classification::Detractor).len() as int;
    s.lemma_filter_len(|e: Answer<T>| e.class() == Classification::Promoter);
    s.lemma_filter_len(|e: Answer<T>| e.class() == Classification::Detractor);
    if s.len() > 0 {
        lemma_percent_range(promoters, s.len() as int);
        lemma_percent_range(detractors, s.len() as int);
    }
}

/// A segment keeps the order of the answers it is taken from: where those
/// stand in the order of their ids, so do the answers of the segment,
/// whatever their ratings and whenever they were recorded.
pub proof fn lemma_segment_ordered<T: Ord>(s: Seq<Answer<T>>, c: Classification)
    requires
        ordered(s),
    ensures
        ordered(segment_of(s, c)),
    decreases s.len(),
{
    let of_class = |e: Answer<T>| e.class() == c;
    reveal(Seq::filter);
    if s.len() > 0 {
        let front = s.drop_last();
        let part = segment_of(front, c);
        assert(forall|i: int| 0 <= i < front.len() ==> front[i] == s[i]);
        lemma_segment_ordered(front, c);
        if of_class(s.last()) {
            let whole = segment_of(s, c);
            assert(whole == part.push(s.last()));
            assert forall|i: int, j: int| 0 <= i < j < whole.len() implies precedes(
                #[trigger] whole[i].id,
                #[trigger] whole[j].id,
            ) by {
                if j == part.len() {
                    front.lemma_filter_contains_rev(of_class, part[i]);
                    let w = choose|w: int| 0 <= w < front.len() && front[w] == part[i];
                    assert(precedes(s[w].id, s[s.len() - 1].id));
                } else {
                    assert(precedes(part[i].id, part[j].id));
                }
            }
        }
    }
}

/// The score for given counts of promoters, detractors and answers.
pub fn compute_score(promoters: usize, detractors: usize, total: usize) -> (score: i32)
    requires
        promoters <= total,
        detractors <= total,
    ensures
        score == net_score(promoters as int, detractors as int, total as int),
        -100 <= score <= 100,
{
    if total == 0 {
        return 0;
    }
    proof {
        lemma_percent_range(promoters as int, total as int);
        lemma_percent_range(detractors as int, total as int);
    }
    let promoter_percent: u128 = (100 * (promoters as u128)) / (total as u128);
    let detractor_percent: u128 = (100 * (detractors as u128)) / (total as u128);
    (promoter_percent as i32) - (detractor_percent as i32)
}

} // verus!
