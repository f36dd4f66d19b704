//! One respondent's answer, as a stored value and as plain values.

use vstd::prelude::*;
use vstd::std_specs::cmp::{PartialEqSpec, PartialEqSpecImpl, PartialOrdSpec, PartialOrdSpecImpl};
use core::cmp::Ordering;
use crate::classification::Classification;
use crate::rating::{NetPromoterScoreError, NpsRating, Rating, MAX_RATING};

verus! {

/// One answer as plain values: who gave it, and the rating as a number.
pub struct Answer<T> {
    /// The respondent's id.
    pub id: T,
    /// The rating given.
    pub rating: int,
}

impl<T> Answer<T> {
    /// The segment this answer falls into.
    pub open spec fn class(self) -> Classification {
        Classification::of(self.rating)
    }

    /// The rating lies on the scale `0..=10`.
    pub open spec fn valid(self) -> bool {
        0 <= self.rating <= MAX_RATING
    }
}

/// One respondent's answer: an identifier and a validated rating.
#[derive(Debug, Eq, Ord)]
pub struct SurveyResponse<T> {
    respondent_id: T,
    score: Rating,
}

impl<T> View for SurveyResponse<T> {
    type V = Answer<T>;

    closed spec fn view(&self) -> Answer<T> {
        Answer { id: self.respondent_id, rating: self.score@ }
    }
}

impl<T: PartialEq> PartialEq for SurveyResponse<T> {
    /// Responses are equal where their ids and their ratings are.
    fn eq(&self, other: &Self) -> (equal: bool) {
        self.respondent_id == other.respondent_id && self.score == other.score
    }
}

impl<T: PartialEq> PartialEqSpecImpl for SurveyResponse<T> {
    open spec fn obeys_eq_spec() -> bool {
        T::obeys_eq_spec()
    }

    open spec fn eq_spec(&self, other: &Self) -> bool {
        self@.id.eq_spec(&other@.id) && self@.rating == other@.rating
    }
}

impl<T: PartialOrd> PartialOrd for SurveyResponse<T> {
    /// Responses are ordered by their ids, and those of one id by their
    /// ratings.
    fn partial_cmp(&self, other: &Self) -> (order: Option<Ordering>) {
        match self.respondent_id.partial_cmp(&other.respondent_id) {
            Some(Ordering::Equal) => self.score.partial_cmp(&other.score),
            order => order,
        }
    }
}

impl<T: PartialOrd> PartialOrdSpecImpl for SurveyResponse<T> {
    open spec fn obeys_partial_cmp_spec() -> bool {
        T::obeys_partial_cmp_spec()
    }

    open spec fn partial_cmp_spec(&self, other: &Self) -> Option<Ordering> {
        match self@.id.partial_cmp_spec(&other@.id) {
            Some(Ordering::Equal) => if self@.rating < other@.rating {
                Some(Ordering::Less)
            } else if self@.rating == other@.rating {
                Some(Ordering::Equal)
            } else {
                Some(Ordering::Greater)
            },
            order => order,
        }
    }
}

impl<T> SurveyResponse<T> {
    /// A stored rating never leaves the scale.
    #[verifier::type_invariant]
    pub open spec fn wf(self) -> bool {
        self@.valid()
    }
}

impl<T: PartialEq> SurveyResponse<T> {
    /// Pairs an identifier with a raw rating, which is refused when it lies
    /// above the scale.
    pub fn new(respondent_id: T, rating: NpsRating) -> (r: Result<Self, NetPromoterScoreError>)
        ensures
            rating <= MAX_RATING <==> r is Ok,
            r matches Ok(response) ==> response@ == (Answer {
                id: respondent_id,
                rating: rating as int,
            }),
            r matches Err(e) ==> e == NetPromoterScoreError::InvalidRating(rating),
    {
        match Rating::try_from(rating) {
            Ok(score) => Ok(Self { respondent_id, score }),
            Err(e) => Err(e),
        }
    }

    /// Who answered.
    pub fn respondent_id(&self) -> (id: &T)
        ensures
            *id == self@.id,
    {
        &self.respondent_id
    }

    /// The rating given; it lies on the scale.
    pub fn score(&self) -> (score: &Rating)
        ensures
            score@ == self@.rating,
            self@.valid(),
    {
        proof {
            use_type_invariant(&self.score);
        }
        &self.score
    }
}

} // verus!
