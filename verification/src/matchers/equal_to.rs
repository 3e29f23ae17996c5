//! The equality matcher: a value matches when it equals the expected
//! value; a mismatch is explained as `was <debug form of the value>`.

use vstd::prelude::*;

verus! {

use crate::{Matcher, MatchResult};
use crate::text_tree::{TextTree, render_spec, render_at, render_parts, lemma_with_indent_empty};
use vstd::std_specs::cmp::PartialEqSpec;

/// The shape of an equality mismatch explanation: the text `"was "`
/// concatenated with a text leaf holding `txt`.
pub open spec fn is_was_explanation(e: TextTree, txt: Seq<char>) -> bool {
    &&& e matches TextTree::Concat(parts)
    &&& parts@.len() == 2
    &&& parts@[0] matches TextTree::Text(w) && w@ == "was "@
    &&& parts@[1] matches TextTree::Text(d) && d@ == txt
}

/// Holds an expected value; a value matches when it equals it.
pub struct EqualToMatcher<T> {
    pub value: T,
}

/// A matcher that a value satisfies exactly when it equals `value`.
pub fn equal_to<T: PartialEq>(value: T) -> (r: EqualToMatcher<T>)
    ensures
        r.value == value,
{
    EqualToMatcher { value }
}

impl<T: core::fmt::Debug + PartialEq> Matcher<T> for EqualToMatcher<T> {
    open spec fn wf(&self) -> bool {
        true
    }

    open spec fn outcome_ok(&self, value: T, r: MatchResult) -> bool {
        &&& T::obeys_eq_spec() ==> ((r is Matched) <==> self.value.eq_spec(&value))
        &&& r matches MatchResult::Unmatched { explanation } ==> exists|txt: Seq<char>|
            is_was_explanation(explanation, txt)
    }

    open spec fn description_ok(&self, d: TextTree) -> bool {
        d is Text
    }

    fn match_value(&self, value: T) -> (r: MatchResult) {
        if self.value == value {
            MatchResult::matched()
        } else {
            let was = TextTree::text("was ");
            let shown = TextTree::debug(value);
            let ghost txt = shown->Text_0@;
            let mut parts: Vec<TextTree> = Vec::new();
            parts.push(was);
            parts.push(shown);
            let explanation = TextTree::concat(parts);
            proof {
                assert(is_was_explanation(explanation, txt));
            }
            MatchResult::unmatched(explanation)
        }
    }

    fn describe(&self) -> (d: TextTree) {
        TextTree::debug(&self.value)
    }
}

/// Equality mismatch rendering law: an explanation of the `was` shape
/// renders to exactly `"was "` followed by the shown text.
pub proof fn lemma_was_explanation_renders(e: TextTree, txt: Seq<char>)
    requires
        is_was_explanation(e, txt),
    ensures
        render_spec(e) == "was "@ + txt,
{
    let empty = Seq::<char>::empty();
    if let TextTree::Concat(parts) = e {
        lemma_with_indent_empty(parts@[0]->Text_0@);
        lemma_with_indent_empty(parts@[1]->Text_0@);
        assert(render_at(parts@[0], empty) == "was "@);
        assert(render_at(parts@[1], empty) == txt);
        assert(parts@.drop_first().drop_first() =~= Seq::<TextTree>::empty());
        assert(parts@.drop_first()[0] == parts@[1]);
        assert(render_parts(Seq::<TextTree>::empty(), empty) == Seq::<char>::empty());
        assert(render_parts(parts@.drop_first(), empty) =~= txt);
        assert(render_parts(parts@, empty) =~= render_at(parts@[0], empty) + render_parts(
            parts@.drop_first(),
            empty,
        ));
        assert(render_spec(e) =~= "was "@ + txt);
    }
}

} // verus!
