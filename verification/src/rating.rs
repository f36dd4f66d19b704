//! Ratings on the scale `0..=10`, and the error for raw values above it.

use vstd::prelude::*;
use vstd::std_specs::cmp::{PartialEqSpecImpl, PartialOrdSpecImpl};
use vstd::std_specs::convert::TryFromSpecImpl;
use vstd::string::StringExecFns;
use core::cmp::Ordering;
use crate::text::{append_decimal, decimal};

verus! {

/// The raw scale on which a respondent answers: any `u8`, of which only
/// `0..=10` are ratings.
pub type NpsRating = u8;

/// How many respondents gave one rating.
pub type ScoreCount = usize;

/// The highest value a rating can take.
pub const MAX_RATING: u8 = 10;

/// Why a raw value was refused.
#[derive(Debug, Clone, Copy, PartialEq, Eq, Structural)]
pub enum NetPromoterScoreError {
    /// The raw value lies above the scale; it is carried along unchanged.
    InvalidRating(u8),
}

impl NetPromoterScoreError {
    /// The error in words, with the raw value that was refused.
    pub fn to_string(&self) -> (text: String)
        ensures
            self matches NetPromoterScoreError::InvalidRating(raw) && text@
                == "Invalid rating value: "@ + decimal(raw as nat),
    {
        match self {
            NetPromoterScoreError::InvalidRating(raw) => {
                let mut text = String::from_str("Invalid rating value: ");
                append_decimal(&mut text, *raw);
                text
            },
        }
    }
}

/// A validated answer on the scale `0..=10`.
#[derive(Debug, Eq, Ord)]
pub struct Rating(u8);

impl PartialEq for Rating {
    /// Ratings are equal where their numbers are.
    fn eq(&self, other: &Self) -> (equal: bool) {
        self.0 == other.0
    }
}

impl PartialEqSpecImpl for Rating {
    open spec fn obeys_eq_spec() -> bool {
        true
    }

    open spec fn eq_spec(&self, other: &Self) -> bool {
        self@ == other@
    }
}

impl PartialOrd for Rating {
    /// Ratings are ordered as their numbers are.
    fn partial_cmp(&self, other: &Self) -> (order: Option<Ordering>) {
        if self.0 < other.0 {
            Some(Ordering::Less)
        } else if self.0 == other.0 {
            Some(Ordering::Equal)
        } else {
            Some(Ordering::Greater)
        }
    }
}

impl PartialOrdSpecImpl for Rating {
    open spec fn obeys_partial_cmp_spec() -> bool {
        true
    }

    open spec fn partial_cmp_spec(&self, other: &Self) -> Option<Ordering> {
        if self@ < other@ {
            Some(Ordering::Less)
        } else if self@ == other@ {
            Some(Ordering::Equal)
        } else {
            Some(Ordering::Greater)
        }
    }
}

impl View for Rating {
    type V = int;

    closed spec fn view(&self) -> int {
        self.0 as int
    }
}

impl Rating {
    /// A rating never leaves the scale.
    #[verifier::type_invariant]
    pub open spec fn wf(self) -> bool {
        0 <= self@ <= MAX_RATING
    }

    /// The rating in decimal digits, and nothing else.
    pub fn to_string(&self) -> (text: String)
        ensures
            text@ == decimal(self@ as nat),
    {
        let mut text = String::new();
        append_decimal(&mut text, self.0);
        assert(text@ =~= decimal(self@ as nat));
        text
    }

    /// The rating as a number.
    pub fn value(&self) -> (v: u8)
        ensures
            v == self@,
            v <= MAX_RATING,
    {
        proof {
            use_type_invariant(self);
        }
        self.0
    }
}

impl TryFrom<u8> for Rating {
    type Error = NetPromoterScoreError;

    fn try_from(value: u8) -> (r: Result<Rating, NetPromoterScoreError>)
        ensures
            value <= MAX_RATING <==> r is Ok,
            r matches Ok(rating) ==> rating@ == value && rating.wf(),
            r matches Err(e) ==> e == NetPromoterScoreError::InvalidRating(value),
    {
        if value <= MAX_RATING {
            Ok(Rating(value))
        } else {
            Err(NetPromoterScoreError::InvalidRating(value))
        }
    }
}

impl TryFromSpecImpl<u8> for Rating {
    open spec fn obeys_try_from_spec() -> bool {
        true
    }

    closed spec fn try_from_spec(v: u8) -> Result<Rating, NetPromoterScoreError> {
        if v <= MAX_RATING {
            Ok(Rating(v))
        } else {
            Err(NetPromoterScoreError::InvalidRating(v))
        }
    }
}

impl core::ops::Deref for Rating {
    type Target = u8;

    fn deref(&self) -> (v: &u8)
        ensures
            *v == self@,
            *v <= MAX_RATING,
    {
        proof {
            use_type_invariant(self);
        }
        &self.0
    }
}

} // verus!
