//! The feature-projection combinator: project a value to one of its
//! features and delegate to a matcher over the feature. A mismatch at
//! depth surfaces as one level of nesting per projection.

use vstd::prelude::*;

verus! {

use crate::{Matcher, MatchResult};
use crate::text_tree::{TextTree, render_spec, render_at, render_parts, newline_at, spaces,
    no_newline, lemma_with_indent_empty, lemma_with_indent_no_newline, lemma_render_at_indent};
use crate::matchers::equal_to::is_was_explanation;

/// Holds a feature name, a projection, and a matcher over the
/// projected feature.
#[verifier::reject_recursive_types(T)]
#[verifier::reject_recursive_types(U)]
pub struct HasMatcher<T, U, M, F> where M: Matcher<U>, F: Fn(T) -> U {
    pub name: String,
    pub extract: F,
    pub matcher: M,
    pub marker: core::marker::PhantomData<(T, U)>,
}

/// How this combinator wraps a sub-matcher's result: a match passes
/// through unchanged; a mismatch explanation is nested under
/// `<name> mismatched`.
pub open spec fn has_wrapped(name: Seq<char>, sub: MatchResult, r: MatchResult) -> bool {
    match sub {
        MatchResult::Matched => r == MatchResult::Matched,
        MatchResult::Unmatched { explanation } => {
            &&& r matches MatchResult::Unmatched { explanation: wrapped }
            &&& wrapped matches TextTree::Nested(outer, inner)
            &&& *inner == explanation
            &&& (*outer) matches TextTree::Concat(ps)
            &&& ps@.len() == 2
            &&& ps@[0] matches TextTree::Text(a) && a@ == name
            &&& ps@[1] matches TextTree::Text(b) && b@ == " mismatched"@
        },
    }
}

impl<T, U, M, F> Matcher<T> for HasMatcher<T, U, M, F> where M: Matcher<U>, F: Fn(T) -> U {
    open spec fn wf(&self) -> bool {
        &&& self.matcher.wf()
        &&& forall|t: T| call_requires(self.extract, (t,))
    }

    open spec fn outcome_ok(&self, value: T, r: MatchResult) -> bool {
        exists|u: U, sub: MatchResult|
            {
                &&& #[trigger] call_ensures(self.extract, (value,), u)
                &&& #[trigger] self.matcher.outcome_ok(u, sub)
                &&& has_wrapped(self.name@, sub, r)
            }
    }

    open spec fn description_ok(&self, d: TextTree) -> bool {
        &&& d matches TextTree::Nested(outer, inner)
        &&& (*outer) matches TextTree::Text(h) && h@ == self.name@
        &&& self.matcher.description_ok(*inner)
    }

    fn match_value(&self, value: T) -> (r: MatchResult) {
        let feature = (self.extract)(value);
        let ghost u = feature;
        let result = self.matcher.match_value(feature);
        let ghost sub = result;

        match result {
            MatchResult::Matched => {
                proof {
                    assert(call_ensures(self.extract, (value,), u) && self.matcher.outcome_ok(
                        u,
                        sub,
                    ) && has_wrapped(self.name@, sub, MatchResult::Matched));
                }
                MatchResult::matched()
            },
            MatchResult::Unmatched { explanation } => {
                let mut ps: Vec<TextTree> = Vec::new();
                ps.push(TextTree::text(self.name.as_str()));
                ps.push(TextTree::text(" mismatched"));
                let wrapped = TextTree::nested(TextTree::concat(ps), explanation);
                let r = MatchResult::unmatched(wrapped);
                proof {
                    assert(call_ensures(self.extract, (value,), u) && self.matcher.outcome_ok(
                        u,
                        sub,
                    ) && has_wrapped(self.name@, sub, r));
                }
                r
            },
        }
    }

    fn describe(&self) -> (d: TextTree) {
        TextTree::nested(TextTree::text(self.name.as_str()), self.matcher.describe())
    }
}

/// A matcher that a value satisfies when `matcher` accepts the feature
/// `extract` projects out of it, named `name` in explanations.
pub fn has<T, U, M: Matcher<U>, F: Fn(T) -> U>(name: &str, extract: F, matcher: M) -> (r:
    HasMatcher<T, U, M, F>)
    requires
        matcher.wf(),
        forall|t: T| call_requires(extract, (t,)),
    ensures
        r.wf(),
        r.name@ == name@,
        r.extract == extract,
        r.matcher == matcher,
{
    HasMatcher { name: name.to_owned(), extract, matcher, marker: core::marker::PhantomData }
}

/// Feature-projection nesting law: when the sub-matcher's explanation
/// has the equality `was` shape and neither the name nor the shown
/// text holds a newline, the wrapped explanation renders to exactly
/// `<name> mismatched:` over an indented `was <text>` line.
pub proof fn lemma_feature_mismatch_renders(
    wrapped: TextTree,
    inner: TextTree,
    name: Seq<char>,
    txt: Seq<char>,
)
    requires
        has_wrapped(
            name,
            MatchResult::Unmatched { explanation: inner },
            MatchResult::Unmatched { explanation: wrapped },
        ),
        is_was_explanation(inner, txt),
        no_newline(name),
        no_newline(txt),
    ensures
        render_spec(wrapped) == name + " mismatched"@ + seq![':', '\n', ' ', ' '] + "was "@ + txt,
{
    let e = Seq::<char>::empty();
    if let TextTree::Nested(outer, nested_inner) = wrapped {
        if let TextTree::Concat(ps) = *outer {
            lemma_with_indent_empty(ps@[0]->Text_0@);
            lemma_with_indent_empty(ps@[1]->Text_0@);
            assert(render_at(ps@[0], e) == name);
            assert(render_at(ps@[1], e) == " mismatched"@);
            assert(ps@.drop_first().drop_first() =~= Seq::<TextTree>::empty());
            assert(ps@.drop_first()[0] == ps@[1]);
            assert(render_parts(Seq::<TextTree>::empty(), e) == Seq::<char>::empty());
            assert(render_parts(ps@.drop_first(), e) =~= " mismatched"@);
            assert(render_parts(ps@, e) =~= render_at(ps@[0], e) + render_parts(
                ps@.drop_first(),
                e,
            ));
            assert(render_at(*outer, e) =~= name + " mismatched"@);

            crate::matchers::equal_to::lemma_was_explanation_renders(inner, txt);
            lemma_render_at_indent(*nested_inner, spaces(2));
            assert(spaces(0) =~= Seq::<char>::empty());
            assert(spaces(1) =~= seq![' ']);
            assert(spaces(2) =~= seq![' ', ' ']);
            reveal_strlit("was ");
            assert(no_newline("was "@ + txt));
            lemma_with_indent_no_newline("was "@ + txt, spaces(2));
            assert(e + spaces(2) =~= spaces(2));
            assert(newline_at(e + spaces(2)) =~= seq!['\n', ' ', ' ']);
            assert(render_at(wrapped, e) == render_at(*outer, e) + seq![':'] + newline_at(
                e + spaces(2),
            ) + render_at(*nested_inner, e + spaces(2)));
            assert(render_spec(wrapped) =~= name + " mismatched"@ + seq![':', '\n', ' ', ' ']
                + "was "@ + txt);
        }
    }
}

} // verus!
