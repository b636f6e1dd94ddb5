//! Pairwise ranking: sorting a list of items by asking for as few
//! pairwise comparisons as possible, and remembering the answers.

pub mod order;
pub mod isort;
pub mod pair;
pub mod ranking;
pub mod model;
