use vstd::prelude::*;

pub mod auth;
pub mod competition;
pub mod competition_scores;
pub mod dates;
pub mod division;
pub mod error;
pub mod exchange;
pub mod queries;
pub mod round;
pub mod scoring;
pub mod sorting;
pub mod text;
pub mod time;
pub mod trading;
pub mod tradelog;
pub mod user_score;

verus! {

} // verus!
