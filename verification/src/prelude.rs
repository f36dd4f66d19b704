//! The names most callers need.

pub use crate::classification::Classification;
pub use crate::rating::{NetPromoterScoreError, NpsRating, Rating, ScoreCount};
pub use crate::response::SurveyResponse;
pub use crate::survey::Survey;
