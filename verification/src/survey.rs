//! The survey: answers gathered one by one, in batches or in bulk, and
//! scored on demand.

use vstd::prelude::*;
use vstd::std_specs::convert::FromSpec;
use vstd::std_specs::iter::IteratorSpec;
use crate::answers::{
    all_valid, insert_all, lemma_insert_all_push, lemma_split_is_rank, lemma_upsert_ordered,
    lemma_upsert_place, ordered, rank, splits_at, upsert,
};
use crate::batch::{
    accepted, all_on_scale, apply, kept, lemma_accepted_concat, lemma_accepted_push,
    lemma_all_accepted, lemma_apply_concat, lemma_batch_start, lemma_kept_push,
    lemma_kept_start, lemma_ratings_of_concat, lemma_refused_concat, lemma_refused_none,
    lemma_refused_push, lemma_spread_grows, lemma_spread_next, numbered, ratings_of, refused,
    spread,
};
use crate::classification::Classification;
use crate::order::{
    comes_before, lawful_order, lemma_integers_lawful, lemma_strict_total_order, precedes,
};
use crate::rating::{NetPromoterScoreError, NpsRating, ScoreCount, MAX_RATING};
use crate::response::{Answer, SurveyResponse};
use crate::score::{
    compute_score, lemma_score_range, lemma_segment_ordered, score_of, segment_of,
};

verus! {

/// Stored responses as plain values.
pub open spec fn answers<T>(responses: Seq<SurveyResponse<T>>) -> Seq<Answer<T>> {
    responses.map_values(|r: SurveyResponse<T>| r@)
}

/// Borrowed responses as plain values.
pub open spec fn borrowed_answers<T>(responses: Seq<&SurveyResponse<T>>) -> Seq<Answer<T>> {
    responses.map_values(|r: &SurveyResponse<T>| r@)
}

/// The answers gathered in one survey: at most one per respondent, kept in
/// the order of the respondents' ids, together with the score once it has
/// been computed.
///
/// The score is remembered from one request to the next. Recording a single
/// answer drops the remembered score; taking in a batch that holds an answer
/// computes it anew.
pub struct Survey<T: Ord> {
    responses: Vec<SurveyResponse<T>>,
    nps_cache: Option<i32>,
}

impl<T: Ord> View for Survey<T> {
    type V = Seq<Answer<T>>;

    closed spec fn view(&self) -> Seq<Answer<T>> {
        answers(self.responses@)
    }
}

/// The place of `id` among responses kept in the order of their ids: behind
/// the responses from earlier ids and in front of all others.
fn position<T: Ord>(responses: &Vec<SurveyResponse<T>>, id: &T) -> (k: usize)
    ensures
        k <= responses.len(),
        lawful_order::<T>() && ordered(answers(responses@)) ==> k == rank(
            answers(responses@),
            *id,
        ),
{
    let ghost s = answers(responses@);
    let ghost lawful = lawful_order::<T>() && ordered(s);
    let mut low: usize = 0;
    let mut high: usize = responses.len();
    while low < high
        invariant
            s == answers(responses@),
            lawful == (lawful_order::<T>() && ordered(s)),
            low <= high <= responses.len(),
            lawful ==> forall|i: int| 0 <= i < low ==> precedes((#[trigger] s[i]).id, *id),
            lawful ==> forall|i: int| high <= i < s.len() ==> !precedes((#[trigger] s[i]).id, *id),
        decreases high - low,
    {
        let middle: usize = low + (high - low) / 2;
        let here = responses[middle].respondent_id();
        let ghost m = middle as int;
        assert(*here == s[m].id);
        if comes_before(here, id) {
            proof {
                if lawful {
                    assert forall|i: int| 0 <= i <= m implies precedes(
                        (#[trigger] s[i]).id,
                        *id,
                    ) by {
                        if i < m {
                            assert(precedes(s[i].id, s[m].id));
                            lemma_strict_total_order(s[i].id, s[m].id, *id);
                        }
                    }
                }
            }
            low = middle + 1;
        } else {
            proof {
                if lawful {
                    assert forall|i: int| m <= i < s.len() implies !precedes(
                        (#[trigger] s[i]).id,
                        *id,
                    ) by {
                        if i > m {
                            assert(precedes(s[m].id, s[i].id));
                            lemma_strict_total_order(s[m].id, s[i].id, *id);
                        }
                    }
                }
            }
            high = middle;
        }
    }
    proof {
        if lawful {
            assert(splits_at(s, *id, low as int));
            lemma_split_is_rank(s, *id, low as int);
        }
    }
    low
}

impl<T: Ord> Survey<T> {
    /// The score that is remembered, if any.
    pub closed spec fn cached(&self) -> Option<int> {
        match self.nps_cache {
            Some(v) => Some(v as int),
            None => None,
        }
    }

    /// What holds of every survey: each rating lies on the scale, the
    /// answers stand in the order of their ids where that order is lawful,
    /// and a remembered score is the score of the answers held.
    #[verifier::type_invariant]
    pub open spec fn wf(self) -> bool {
        &&& all_valid(self@)
        &&& lawful_order::<T>() ==> ordered(self@)
        &&& self.cached() matches Some(v) ==> v == score_of(self@)
    }

    /// This survey is what a survey that held the answers `start` and
    /// remembered `remembered` becomes by taking in `batch`: the answers of
    /// the batch are put in one after the other, and if there is one among
    /// them the score is computed anew; a batch without answers changes
    /// nothing.
    pub open spec fn took_in(
        self,
        start: Seq<Answer<T>>,
        remembered: Option<int>,
        batch: Seq<(T, NpsRating)>,
    ) -> bool {
        &&& lawful_order::<T>() ==> self@ == apply(start, batch)
        &&& accepted(batch).len() == 0 ==> self@ == start
        &&& self.cached() == if accepted(batch).len() > 0 {
            Some(score_of(self@))
        } else {
            remembered
        }
    }

    /// A survey without answers.
    pub fn new() -> (survey: Self)
        ensures
            survey@ == Seq::<Answer<T>>::empty(),
            survey.cached() is None,
    {
        let survey = Survey { responses: Vec::new(), nps_cache: None };
        assert(survey@ =~= Seq::<Answer<T>>::empty());
        survey
    }

    /// How many answers the survey holds.
    pub fn len(&self) -> (n: usize)
        ensures
            n == self@.len(),
    {
        self.responses.len()
    }

    /// Whether the survey holds no answer.
    pub fn is_empty(&self) -> (empty: bool)
        ensures
            empty <==> self@.len() == 0,
    {
        self.responses.len() == 0
    }

    /// Puts a response in, in place of the response from the same id if
    /// there is one, and drops the remembered score.
    fn insert(&mut self, response: SurveyResponse<T>)
        ensures
            lawful_order::<T>() ==> final(self)@ == upsert(old(self)@, response@),
            final(self).cached() is None,
    {
        proof {
            use_type_invariant(&*self);
            use_type_invariant(&response);
        }
        self.nps_cache = None;
        let mut responses: Vec<SurveyResponse<T>> = Vec::new();
        core::mem::swap(&mut responses, &mut self.responses);
        let ghost s = answers(responses@);
        let ghost e = response@;
        let k: usize = position(&responses, response.respondent_id());
        let present = k < responses.len() && !comes_before(
            response.respondent_id(),
            responses[k].respondent_id(),
        );
        proof {
            if lawful_order::<T>() {
                lemma_upsert_place(s, e);
                lemma_upsert_ordered(s, e);
                if k < s.len() {
                    lemma_strict_total_order(e.id, s[k as int].id, e.id);
                }
            }
        }
        if present {
            responses[k] = response;
            assert(answers(responses@) =~= s.update(k as int, e));
        } else {
            responses.insert(k, response);
            assert(answers(responses@) =~= s.insert(k as int, e));
        }
        proof {
            let t = answers(responses@);
            assert forall|i: int| 0 <= i < t.len() implies (#[trigger] t[i]).valid() by {
                if i != k {
                    if t.len() == s.len() || i < k {
                        assert(t[i] == s[i]);
                    } else {
                        assert(t[i] == s[i - 1]);
                    }
                }
            }
        }
        self.responses = responses;
    }

    /// Records the answer of one respondent, in place of an earlier answer
    /// of the same respondent if there is one, and drops the remembered
    /// score. A rating above the scale is refused and leaves the survey as
    /// it was.
    pub fn add_response(&mut self, respondent_id: T, score: NpsRating) -> (r: Result<
        (),
        NetPromoterScoreError,
    >)
        ensures
            r is Ok <==> score <= MAX_RATING,
            r is Ok ==> final(self).cached() is None,
            r is Ok && lawful_order::<T>() ==> final(self)@ == upsert(
                old(self)@,
                Answer { id: respondent_id, rating: score as int },
            ),
            r matches Err(e) ==> e == NetPromoterScoreError::InvalidRating(score),
            r is Err ==> final(self)@ == old(self)@ && final(self).cached() == old(self).cached(),
    {
        match SurveyResponse::new(respondent_id, score) {
            Ok(response) => {
                self.insert(response);
                Ok(())
            },
            Err(e) => Err(e),
        }
    }

    /// Records a batch of answers. Every pair is tried: those with a rating
    /// on the scale are recorded one after the other, the others give one
    /// error each, in input order. Where an answer was recorded the score is
    /// computed anew.
    pub fn add_multiple_responses(&mut self, responses: Vec<(T, NpsRating)>) -> (r: Result<
        (),
        Vec<NetPromoterScoreError>,
    >)
        ensures
            r is Ok <==> all_on_scale(ratings_of(responses@)),
            r matches Err(errors) ==> errors@ == refused(ratings_of(responses@)),
            final(self).took_in(old(self)@, old(self).cached(), responses@),
    {
        let ghost pairs = responses@;
        let ghost start = self@;
        let ghost remembered = self.cached();
        let mut errors: Vec<NetPromoterScoreError> = Vec::new();
        let mut recorded = false;
        proof {
            lemma_batch_start(start);
            assert(pairs.take(0) =~= Seq::<(T, NpsRating)>::empty());
        }
        for pair in it: responses.into_iter()
            invariant
                it.seq() == pairs,
                errors@ == refused(ratings_of(pairs.take(it.index()))),
                lawful_order::<T>() ==> self@ == apply(start, pairs.take(it.index())),
                recorded <==> accepted(pairs.take(it.index())).len() > 0,
                !recorded ==> self@ == start && self.cached() == remembered,
        {
            let ghost done = pairs.take(it.index());
            proof {
                assert(pairs.take(it.index() + 1) =~= done.push(pair));
                assert(ratings_of(done.push(pair)) =~= ratings_of(done).push(pair.1));
                lemma_refused_push(ratings_of(done), pair.1);
                lemma_accepted_push(done, pair);
                lemma_insert_all_push(
                    start,
                    accepted(done),
                    Answer { id: pair.0, rating: pair.1 as int },
                );
            }
            let (respondent_id, score) = pair;
            match self.add_response(respondent_id, score) {
                Ok(()) => {
                    recorded = true;
                },
                Err(e) => {
                    errors.push(e);
                },
            }
        }
        proof {
            assert(pairs.take(pairs.len() as int) =~= pairs);
            lemma_refused_none(ratings_of(pairs));
        }
        if recorded {
            self.calculate_nps();
        }
        if errors.is_empty() {
            Ok(())
        } else {
            Err(errors)
        }
    }

    /// Computes the score of the answers held and remembers it.
    fn calculate_nps(&mut self)
        ensures
            final(self)@ == old(self)@,
            final(self).cached() == Some(score_of(old(self)@)),
    {
        let total: usize = self.responses.len();
        let promoters: usize = self.segment(Classification::Promoter).len();
        let detractors: usize = self.segment(Classification::Detractor).len();
        proof {
            self@.lemma_filter_len(|e: Answer<T>| e.class() == Classification::Promoter);
            self@.lemma_filter_len(|e: Answer<T>| e.class() == Classification::Detractor);
        }
        let score: i32 = compute_score(promoters, detractors, total);
        proof {
            use_type_invariant(&*self);
        }
        self.nps_cache = Some(score);
    }

    /// The score of the answers held: the percentage of promoters less the
    /// percentage of detractors, each rounded down, and 0 for a survey
    /// without answers. A remembered score is handed out as it is; else the
    /// score is computed and remembered.
    pub fn score(&mut self) -> (score: i32)
        ensures
            score == score_of(old(self)@),
            -100 <= score <= 100,
            old(self)@.len() == 0 ==> score == 0,
            final(self)@ == old(self)@,
            final(self).cached() == Some(score as int),
    {
        proof {
            use_type_invariant(&*self);
            lemma_score_range(self@);
        }
        match self.nps_cache {
            Some(cached_nps) => cached_nps,
            None => {
                self.calculate_nps();
                self.nps_cache.unwrap_or(0)
            },
        }
    }

    /// All responses, in the order of their ids.
    pub fn responses(&self) -> (all: Vec<&SurveyResponse<T>>)
        ensures
            borrowed_answers(all@) == self@,
            lawful_order::<T>() ==> ordered(borrowed_answers(all@)),
    {
        proof {
            use_type_invariant(self);
        }
        let mut all: Vec<&SurveyResponse<T>> = Vec::new();
        let mut i: usize = 0;
        while i < self.responses.len()
            invariant
                i <= self.responses.len(),
                all.len() == i,
                borrowed_answers(all@) == self@.take(i as int),
            decreases self.responses.len() - i,
        {
            let ghost before = all@;
            let response = &self.responses[i];
            all.push(response);
            assert(borrowed_answers(all@) =~= borrowed_answers(before).push(response@));
            assert(self@.take(i + 1) =~= self@.take(i as int).push(response@));
            i += 1;
        }
        assert(self@.take(i as int) =~= self@);
        all
    }

    /// The responses that fall into one segment, in the order of their ids,
    /// whatever their ratings and the order in which they were recorded.
    pub fn segment(&self, classification: Classification) -> (part: Vec<&SurveyResponse<T>>)
        ensures
            borrowed_answers(part@) == segment_of(self@, classification),
            lawful_order::<T>() ==> ordered(borrowed_answers(part@)),
    {
        proof {
            use_type_invariant(self);
            if lawful_order::<T>() {
                lemma_segment_ordered(self@, classification);
            }
        }
        let mut part: Vec<&SurveyResponse<T>> = Vec::new();
        let mut i: usize = 0;
        assert(self@.take(0) =~= Seq::<Answer<T>>::empty());
        while i < self.responses.len()
            invariant
                i <= self.responses.len(),
                borrowed_answers(part@) == segment_of(self@.take(i as int), classification),
            decreases self.responses.len() - i,
        {
            let response = &self.responses[i];
            proof {
                broadcast use Seq::lemma_filter_push;

                assert(self@.take(i + 1) =~= self@.take(i as int).push(response@));
            }
            if Classification::classify(response.score()) == classification {
                part.push(response);
                assert(borrowed_answers(part@) =~= segment_of(self@.take(i + 1), classification));
            }
            i += 1;
        }
        assert(self@.take(i as int) =~= self@);
        part
    }

    /// Takes in the batch of one rating/count pair, behind the `batch` taken
    /// in so far, and adds its errors to those gathered so far.
    fn add_group(
        &mut self,
        responses: Vec<(T, NpsRating)>,
        errors: &mut Vec<NetPromoterScoreError>,
        Ghost(start): Ghost<Seq<Answer<T>>>,
        Ghost(remembered): Ghost<Option<int>>,
        Ghost(batch): Ghost<Seq<(T, NpsRating)>>,
    )
        requires
            old(errors)@ == refused(ratings_of(batch)),
            old(self).took_in(start, remembered, batch),
        ensures
            final(errors)@ == refused(ratings_of(batch + responses@)),
            final(self).took_in(start, remembered, batch + responses@),
    {
        proof {
            lemma_ratings_of_concat(batch, responses@);
            lemma_refused_concat(ratings_of(batch), ratings_of(responses@));
            lemma_refused_none(ratings_of(responses@));
            lemma_accepted_concat(batch, responses@);
            lemma_apply_concat(start, batch, responses@);
        }
        match self.add_multiple_responses(responses) {
            Ok(()) => {
                assert(errors@ + refused(ratings_of(responses@)) =~= errors@);
            },
            Err(mut group_errors) => {
                errors.append(&mut group_errors);
            },
        }
    }

    /// Records answers given as rating/count pairs: for each pair, in input
    /// order, as many ids as its count says are taken from `respondent_id_fn`
    /// and recorded with its rating. The ids are taken whether or not the
    /// rating lies on the scale; a rating above it gives one error for each
    /// id taken.
    ///
    /// The ids are what the generator hands out, so the contract speaks of
    /// some batch of pairs: its ratings are the ratings written out, each of
    /// its ids is one the generator may hand out, and the survey took it in.
    pub fn add_bulk_responses<F>(
        &mut self,
        mut respondent_id_fn: F,
        nps_scores: &[(NpsRating, ScoreCount)],
    ) -> (r: Result<(), Vec<NetPromoterScoreError>>) where F: FnMut() -> T
        requires
            call_requires(respondent_id_fn, ()),
        ensures
            r is Ok <==> all_on_scale(spread(nps_scores@)),
            r matches Err(errors) ==> errors@ == refused(spread(nps_scores@)),
            exists|batch: Seq<(T, NpsRating)>|
                {
                    &&& #[trigger] ratings_of(batch) == spread(nps_scores@)
                    &&& forall|i: int|
                        0 <= i < batch.len() ==> call_ensures(
                            respondent_id_fn,
                            (),
                            (#[trigger] batch[i]).0,
                        )
                    &&& final(self).took_in(old(self)@, old(self).cached(), batch)
                },
    {
        let ghost start = self@;
        let ghost remembered = self.cached();
        let ghost source = respondent_id_fn;
        let ghost mut batch: Seq<(T, NpsRating)> = Seq::empty();
        let mut errors: Vec<NetPromoterScoreError> = Vec::new();
        let mut g: usize = 0;
        proof {
            lemma_batch_start(start);
            assert(nps_scores@.take(0) =~= Seq::<(NpsRating, ScoreCount)>::empty());
        }
        while g < nps_scores.len()
            invariant
                g <= nps_scores.len(),
                respondent_id_fn == source,
                call_requires(source, ()),
                ratings_of(batch) == spread(nps_scores@.take(g as int)),
                forall|i: int|
                    0 <= i < batch.len() ==> call_ensures(source, (), (#[trigger] batch[i]).0),
                errors@ == refused(ratings_of(batch)),
                self.took_in(start, remembered, batch),
            decreases nps_scores.len() - g,
        {
            let (rating, count) = nps_scores[g];
            let mut responses: Vec<(T, NpsRating)> = Vec::new();
            let mut n: usize = 0;
            while n < count
                invariant
                    n <= count,
                    respondent_id_fn == source,
                    call_requires(source, ()),
                    responses.len() == n,
                    forall|i: int|
                        0 <= i < n ==> (#[trigger] responses[i]).1 == rating && call_ensures(
                            source,
                            (),
                            responses[i].0,
                        ),
                decreases count - n,
            {
                let respondent_id = respondent_id_fn();
                responses.push((respondent_id, rating));
                n += 1;
            }
            proof {
                lemma_spread_next(nps_scores@, g as int);
                lemma_ratings_of_concat(batch, responses@);
                assert(ratings_of(responses@) =~= Seq::new(count as nat, |i: int| rating));
            }
            let ghost group = responses@;
            self.add_group(responses, &mut errors, Ghost(start), Ghost(remembered), Ghost(batch));
            proof {
                batch = batch + group;
            }
            g += 1;
        }
        proof {
            assert(nps_scores@.take(g as int) =~= nps_scores@);
            lemma_refused_none(spread(nps_scores@));
        }
        if errors.is_empty() {
            Ok(())
        } else {
            Err(errors)
        }
    }

    /// A survey of a batch of answers, or the errors of the batch where
    /// some rating lies above the scale. The errors are handed out as the
    /// caller's own error type; the answers recorded beside them are dropped.
    pub fn from_responses<E>(responses: Vec<(T, NpsRating)>) -> (r: Result<Self, Vec<E>>) where
        E: From<NetPromoterScoreError>,

        ensures
            r is Ok <==> all_on_scale(ratings_of(responses@)),
            r matches Ok(survey) ==> survey.took_in(Seq::empty(), None, responses@)
                && accepted(responses@).len() == responses.len(),
            r matches Err(errors) ==> {
                &&& errors.len() == refused(ratings_of(responses@)).len()
                &&& E::obeys_from_spec() ==> forall|i: int|
                    0 <= i < errors.len() ==> #[trigger] errors[i] == E::from_spec(
                        refused(ratings_of(responses@))[i],
                    )
            },
    {
        let mut survey = Self::new();
        proof {
            lemma_all_accepted(responses@);
        }
        match survey.add_multiple_responses(responses) {
            Ok(()) => Ok(survey),
            Err(errors) => {
                let mut converted: Vec<E> = Vec::new();
                let mut i: usize = 0;
                while i < errors.len()
                    invariant
                        i <= errors.len(),
                        converted.len() == i,
                        E::obeys_from_spec() ==> forall|k: int|
                            0 <= k < i ==> #[trigger] converted[k] == E::from_spec(errors[k]),
                    decreases errors.len() - i,
                {
                    converted.push(E::from(errors[i]));
                    i += 1;
                }
                Err(converted)
            },
        }
    }

    /// Puts responses in one after the other, each in place of an earlier
    /// answer of the same respondent if there is one, and drops the
    /// remembered score if there is a response to put in.
    pub fn extend(&mut self, responses: Vec<SurveyResponse<T>>)
        ensures
            lawful_order::<T>() ==> final(self)@ == insert_all(old(self)@, answers(responses@)),
            responses.len() == 0 ==> final(self)@ == old(self)@,
            final(self).cached() == if responses.len() > 0 {
                None
            } else {
                old(self).cached()
            },
    {
        let ghost all = answers(responses@);
        let ghost start = self@;
        let ghost remembered = self.cached();
        proof {
            assert(all.take(0) =~= Seq::<Answer<T>>::empty());
        }
        for response in it: responses.into_iter()
            invariant
                answers(it.seq()) == all,
                lawful_order::<T>() ==> self@ == insert_all(start, all.take(it.index())),
                it.index() == 0 ==> self@ == start && self.cached() == remembered,
                it.index() > 0 ==> self.cached() is None,
        {
            proof {
                assert(all.take(it.index() + 1) =~= all.take(it.index()).push(response@));
                lemma_insert_all_push(start, all.take(it.index()), response@);
            }
            self.insert(response);
        }
        proof {
            assert(all.take(all.len() as int) =~= all);
        }
    }

    /// A survey of the responses of a stream. The items that hold an error
    /// are passed over.
    pub fn from_iter(items: Vec<Result<SurveyResponse<T>, NetPromoterScoreError>>) -> (survey:
        Self)
        ensures
            lawful_order::<T>() ==> survey@ == insert_all(Seq::empty(), kept(items@)),
            kept(items@).len() == 0 ==> survey@ == Seq::<Answer<T>>::empty(),
            survey.cached() is None,
    {
        let ghost stream = items@;
        let mut found: Vec<SurveyResponse<T>> = Vec::new();
        proof {
            lemma_kept_start::<T>();
            assert(stream.take(0) =~= Seq::empty());
        }
        for item in it: items.into_iter()
            invariant
                it.seq() == stream,
                answers(found@) == kept(stream.take(it.index())),
        {
            proof {
                assert(stream.take(it.index() + 1) =~= stream.take(it.index()).push(item));
                lemma_kept_push(stream.take(it.index()), item);
            }
            match item {
                Ok(response) => {
                    found.push(response);
                    assert(answers(found@) =~= kept(stream.take(it.index())).push(response@));
                },
                Err(_) => {},
            }
        }
        proof {
            assert(stream.take(stream.len() as int) =~= stream);
        }
        let mut survey = Self::new();
        survey.extend(found);
        survey
    }

    /// Hands out the responses, in the order of their ids.
    pub fn into_responses(self) -> (all: Vec<SurveyResponse<T>>)
        ensures
            answers(all@) == self@,
    {
        self.responses
    }
}

impl Survey<i32> {
    /// Records answers given as rating/count pairs under ids of its own: the
    /// answers of one call are numbered 1, 2, 3, ... in input order, across
    /// all pairs, whether or not their rating lies on the scale. Every call
    /// starts again at 1, so that a second call on the same survey replaces
    /// answers of the first. All the answers of one call must have a number
    /// below `i32::MAX`.
    pub fn add_bulk_responses_auto_id(&mut self, nps_scores: &[(NpsRating, ScoreCount)]) -> (r:
        Result<(), Vec<NetPromoterScoreError>>)
        requires
            spread(nps_scores@).len() < i32::MAX,
        ensures
            r is Ok <==> all_on_scale(spread(nps_scores@)),
            r matches Err(errors) ==> errors@ == refused(spread(nps_scores@)),
            final(self)@ == apply(old(self)@, numbered(spread(nps_scores@))),
            final(self).took_in(old(self)@, old(self).cached(), numbered(spread(nps_scores@))),
    {
        let ghost start = self@;
        let ghost remembered = self.cached();
        let ghost mut batch: Seq<(i32, NpsRating)> = Seq::empty();
        let mut errors: Vec<NetPromoterScoreError> = Vec::new();
        let mut respondent_id: i32 = 1;
        let mut g: usize = 0;
        proof {
            lemma_integers_lawful();
            lemma_batch_start(start);
            assert(nps_scores@.take(0) =~= Seq::<(NpsRating, ScoreCount)>::empty());
            assert(numbered(Seq::<u8>::empty()) =~= Seq::<(i32, NpsRating)>::empty());
        }
        while g < nps_scores.len()
            invariant
                g <= nps_scores.len(),
                lawful_order::<i32>(),
                spread(nps_scores@).len() < i32::MAX,
                respondent_id == batch.len() + 1,
                batch == numbered(spread(nps_scores@.take(g as int))),
                errors@ == refused(ratings_of(batch)),
                self.took_in(start, remembered, batch),
            decreases nps_scores.len() - g,
        {
            let (rating, count) = nps_scores[g];
            let mut responses: Vec<(i32, NpsRating)> = Vec::new();
            let mut n: usize = 0;
            proof {
                lemma_spread_next(nps_scores@, g as int);
                lemma_spread_grows(nps_scores@, g + 1);
            }
            while n < count
                invariant
                    n <= count,
                    batch.len() + count < i32::MAX,
                    respondent_id == batch.len() + n + 1,
                    responses.len() == n,
                    forall|i: int|
                        0 <= i < n ==> #[trigger] responses[i] == (
                            (batch.len() + i + 1) as i32,
                            rating,
                        ),
                decreases count - n,
            {
                responses.push((respondent_id, rating));
                respondent_id += 1;
                n += 1;
            }
            proof {
                assert(batch + responses@ =~= numbered(spread(nps_scores@.take(g + 1))));
            }
            let ghost group = responses@;
            self.add_group(responses, &mut errors, Ghost(start), Ghost(remembered), Ghost(batch));
            proof {
                batch = batch + group;
            }
            g += 1;
        }
        proof {
            assert(nps_scores@.take(g as int) =~= nps_scores@);
            lemma_refused_none(spread(nps_scores@));
            assert(ratings_of(batch) =~= spread(nps_scores@));
        }
        if errors.is_empty() {
            Ok(())
        } else {
            Err(errors)
        }
    }
}

impl<T: Ord> Default for Survey<T> {
    /// A survey without answers.
    fn default() -> (survey: Self)
        ensures
            survey@ == Seq::<Answer<T>>::empty(),
            survey.cached() is None,
    {
        Self::new()
    }
}

impl<T: Ord> IntoIterator for Survey<T> {
    type Item = SurveyResponse<T>;

    type IntoIter = std::vec::IntoIter<SurveyResponse<T>>;

    /// Hands out the responses one by one, in the order of their ids.
    fn into_iter(self) -> (iter: std::vec::IntoIter<SurveyResponse<T>>)
        ensures
            answers(iter.remaining()) == self@,
    {
        self.responses.into_iter()
    }
}

impl<'a, T: Ord> IntoIterator for &'a Survey<T> {
    type Item = &'a SurveyResponse<T>;

    type IntoIter = std::slice::Iter<'a, SurveyResponse<T>>;

    /// Lends the responses one by one, in the order of their ids.
    fn into_iter(self) -> (iter: std::slice::Iter<'a, SurveyResponse<T>>)
        ensures
            borrowed_answers(iter.remaining()) == self@,
    {
        let iter = self.responses.iter();
        assert(borrowed_answers(iter.remaining()) =~= self@);
        iter
    }
}

} // verus!
