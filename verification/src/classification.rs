//! The three loyalty segments and the rule that sorts ratings into them.

use vstd::prelude::*;
use vstd::std_specs::cmp::PartialOrdSpecImpl;
use vstd::std_specs::convert::FromSpecImpl;
use core::cmp::Ordering;
use crate::rating::Rating;

verus! {

/// The loyalty segment a respondent falls into, lowest first.
#[derive(Debug, Clone, Copy, PartialEq, Eq, Ord, Structural)]
pub enum Classification {
    Detractor,
    Passive,
    Promoter,
}

impl Classification {
    /// The place of a segment among the three: detractors lowest, promoters
    /// highest.
    pub open spec fn level(self) -> int {
        match self {
            Classification::Detractor => 0,
            Classification::Passive => 1,
            Classification::Promoter => 2,
        }
    }

    /// The place of this segment among the three.
    fn place(&self) -> (place: u8)
        ensures
            place == self.level(),
    {
        match self {
            Classification::Detractor => 0,
            Classification::Passive => 1,
            Classification::Promoter => 2,
        }
    }

    /// The segment of a rating given as a number: up to 6 a detractor, 7 and 8
    /// passive, above that a promoter.
    pub open spec fn of(rating: int) -> Classification {
        if rating <= 6 {
            Classification::Detractor
        } else if rating <= 8 {
            Classification::Passive
        } else {
            Classification::Promoter
        }
    }

    /// The segment of a rating.
    pub fn classify(rating: &Rating) -> (c: Classification)
        ensures
            c == Classification::of(rating@),
    {
        let v: u8 = rating.value();
        if v <= 6 {
            Classification::Detractor
        } else if v <= 8 {
            Classification::Passive
        } else {
            Classification::Promoter
        }
    }

    /// The three segments split the scale `0..=10` into `0..=6`, `{7, 8}` and
    /// `{9, 10}`: every rating lies in exactly one of them.
    pub proof fn lemma_partition(rating: Rating)
        requires
            rating.wf(),
        ensures
            Classification::of(rating@) is Detractor <==> 0 <= rating@ <= 6,
            Classification::of(rating@) is Passive <==> rating@ == 7 || rating@ == 8,
            Classification::of(rating@) is Promoter <==> rating@ == 9 || rating@ == 10,
    {
    }
}

impl PartialOrd for Classification {
    /// Segments are ordered by their level.
    fn partial_cmp(&self, other: &Self) -> (order: Option<Ordering>) {
        let here: u8 = self.place();
        let there: u8 = other.place();
        if here < there {
            Some(Ordering::Less)
        } else if here == there {
            Some(Ordering::Equal)
        } else {
            Some(Ordering::Greater)
        }
    }
}

impl PartialOrdSpecImpl for Classification {
    open spec fn obeys_partial_cmp_spec() -> bool {
        true
    }

    open spec fn partial_cmp_spec(&self, other: &Self) -> Option<Ordering> {
        if self.level() < other.level() {
            Some(Ordering::Less)
        } else if self.level() == other.level() {
            Some(Ordering::Equal)
        } else {
            Some(Ordering::Greater)
        }
    }
}

impl From<&Rating> for Classification {
    fn from(score: &Rating) -> (c: Classification)
        ensures
            c == Classification::of(score@),
    {
        Classification::classify(score)
    }
}

impl FromSpecImpl<&Rating> for Classification {
    open spec fn obeys_from_spec() -> bool {
        true
    }

    open spec fn from_spec(score: &Rating) -> Classification {
        Classification::of(score@)
    }
}

impl From<Rating> for Classification {
    fn from(score: Rating) -> (c: Classification)
        ensures
            c == Classification::of(score@),
    {
        Classification::classify(&score)
    }
}

impl FromSpecImpl<Rating> for Classification {
    open spec fn obeys_from_spec() -> bool {
        true
    }

    open spec fn from_spec(score: Rating) -> Classification {
        Classification::of(score@)
    }
}

} // verus!
