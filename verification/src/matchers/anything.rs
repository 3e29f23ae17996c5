//! The always-match matcher: every value satisfies it.

use vstd::prelude::*;

verus! {

use crate::{Matcher, MatchResult};
use crate::text_tree::TextTree;

/// A matcher that accepts every value of every type.
pub struct AnythingMatcher {}

impl<T> Matcher<T> for AnythingMatcher {
    open spec fn wf(&self) -> bool {
        true
    }

    open spec fn outcome_ok(&self, value: T, r: MatchResult) -> bool {
        r == MatchResult::Matched
    }

    open spec fn description_ok(&self, d: TextTree) -> bool {
        d matches TextTree::Text(s) && s@ == "anything"@
    }

    fn match_value(&self, _value: T) -> (r: MatchResult) {
        MatchResult::matched()
    }

    fn describe(&self) -> (d: TextTree) {
        TextTree::text("anything")
    }
}

/// A matcher that any value satisfies.
pub fn anything() -> (r: AnythingMatcher)
    ensures
        r == (AnythingMatcher {}),
{
    AnythingMatcher {}
}

} // verus!
