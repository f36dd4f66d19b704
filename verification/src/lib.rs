//! Net Promoter Score surveys.
//!
//! A [`Survey`] gathers the answers of respondents, each an id and a
//! [`Rating`] on the scale `0..=10`, keeps at most one answer per respondent
//! in the order of the ids, and computes the score: the percentage of
//! promoters (ratings 9 and 10) less the percentage of detractors (ratings up
//! to 6), each rounded down, a whole number between -100 and 100.
//!
//! What the operations do is stated over plain values: a survey is seen as
//! the sequence of its answers ([`response::Answer`]), and the modules
//! [`answers`], [`batch`] and [`score`] say what putting answers in, taking in
//! a batch and scoring mean for such a sequence. What is said of the order
//! of the answers holds for the id types whose comparisons are known to be
//! lawful ([`order::lawful_order`]): the integer types, and references to
//! and pairs of such types.

pub mod answers;
pub mod batch;
pub mod classification;
pub mod order;
pub mod prelude;
pub mod rating;
pub mod response;
pub mod score;
pub mod survey;
pub mod text;

pub use classification::Classification;
pub use rating::{NetPromoterScoreError, NpsRating, Rating, ScoreCount};
pub use response::SurveyResponse;
pub use survey::Survey;
