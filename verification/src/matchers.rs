//! The matcher catalog: primitive matchers and the combinators that
//! compose nested matchers and their explanations.

pub mod anything;
pub mod equal_to;
pub mod has;
pub mod is_variant;
