//! The variant-destructuring combinator: check that a value is a
//! specific case of a discriminated union, extract a feature from that
//! case, and run zero or more matchers over the feature in order,
//! stopping at the first mismatch.

use vstd::prelude::*;

verus! {

use crate::{Matcher, MatchResult};
use crate::text_tree::TextTree;

/// The short-circuit evaluation contract over a sequence of matchers:
/// every matcher up to the first mismatch ran and matched; the first
/// mismatching matcher's own result is the overall result, unchanged;
/// with no mismatch the overall result is `Matched`.
pub open spec fn chain_ok<U, M: Matcher<U>>(ms: Seq<M>, u: U, r: MatchResult) -> bool
    decreases ms.len(),
{
    if ms.len() == 0 {
        r == MatchResult::Matched
    } else {
        exists|first: MatchResult|
            {
                &&& #[trigger] ms[0].outcome_ok(u, first)
                &&& if first is Unmatched {
                    r == first
                } else {
                    chain_ok(ms.drop_first(), u, r)
                }
            }
    }
}

/// Holds a variant selector — a projection returning the extracted
/// feature, or nothing when the value is the wrong variant — and the
/// matchers to run over the feature.
#[verifier::reject_recursive_types(T)]
#[verifier::reject_recursive_types(U)]
pub struct VariantMatcher<T, U, M, F> where M: Matcher<U>, U: Copy, F: Fn(T) -> Option<U> {
    pub extract: F,
    pub matchers: Vec<M>,
    pub marker: core::marker::PhantomData<(T, U)>,
}

impl<T, U, M, F> Matcher<T> for VariantMatcher<T, U, M, F> where
    M: Matcher<U>,
    U: Copy,
    F: Fn(T) -> Option<U>,
 {
    open spec fn wf(&self) -> bool {
        &&& forall|t: T| call_requires(self.extract, (t,))
        &&& forall|i: int| 0 <= i < self.matchers@.len() ==> (#[trigger] self.matchers@[i]).wf()
    }

    open spec fn outcome_ok(&self, value: T, r: MatchResult) -> bool {
        exists|o: Option<U>|
            #[trigger] call_ensures(self.extract, (value,), o) && match o {
                None => r matches MatchResult::Unmatched { explanation } && explanation
                    matches TextTree::Text(s) && s@ == Seq::<char>::empty(),
                Some(u) => chain_ok(self.matchers@, u, r),
            }
    }

    open spec fn description_ok(&self, d: TextTree) -> bool {
        &&& d matches TextTree::List { style, heading, children }
        &&& style == crate::text_tree::BulletStyle::Star
        &&& heading@ == "variant"@
        &&& children@.len() == self.matchers@.len()
        &&& forall|i: int| 0 <= i < children@.len() ==> self.matchers@[i].description_ok(
            #[trigger] children@[i],
        )
    }

    fn match_value(&self, value: T) -> (r: MatchResult) {
        let feature = (self.extract)(value);
        let ghost o = feature;

        match feature {
            None => {
                let empty_text = TextTree::text("");
                let r = MatchResult::unmatched(empty_text);
                proof {
                    reveal_strlit("");
                    assert(""@ =~= Seq::<char>::empty());
                    assert(call_ensures(self.extract, (value,), o));
                    assert(self.outcome_ok(value, r));
                }
                r
            },
            Some(u) => {
                let ghost mut seen: Seq<MatchResult> = Seq::empty();
                let mut k: usize = 0;
                while k < self.matchers.len()
                    invariant
                        k <= self.matchers@.len(),
                        self.wf(),
                        call_ensures(self.extract, (value,), o),
                        o == Some(u),
                        seen.len() == k,
                        forall|j: int| 0 <= j < k ==> self.matchers@[j].outcome_ok(
                            u,
                            #[trigger] seen[j],
                        ),
                        forall|j: int| 0 <= j < k ==> (#[trigger] seen[j]) is Matched,
                    decreases self.matchers@.len() - k,
                {
                    let result = self.matchers[k].match_value(u);
                    if let MatchResult::Unmatched { .. } = result {
                        proof {
                            assert(self.matchers@.skip(k as int)[0] == self.matchers@[k as int]);
                            assert(self.matchers@.skip(k as int).drop_first()
                                =~= self.matchers@.skip(k + 1));
                            assert(chain_ok(self.matchers@.skip(k as int), u, result));
                            lemma_chain_skip(self.matchers@, u, result, k as int, seen);
                            assert(self.outcome_ok(value, result));
                        }
                        return result;
                    }
                    proof {
                        seen = seen.push(result);
                    }
                    k = k + 1;
                }
                proof {
                    assert(self.matchers@.skip(self.matchers@.len() as int)
                        =~= Seq::<M>::empty());
                    assert(chain_ok(
                        self.matchers@.skip(self.matchers@.len() as int),
                        u,
                        MatchResult::Matched,
                    ));
                    lemma_chain_skip(self.matchers@, u, MatchResult::Matched,
                        self.matchers@.len() as int, seen);
                    assert(self.outcome_ok(value, MatchResult::Matched));
                }
                MatchResult::matched()
            },
        }
    }

    /// The explanation tree has no defined rendering in the protocol
    /// for this combinator; the choice here — a bulleted list of the
    /// sub-matcher descriptions under the heading `variant` — is a
    /// deliberate extension.
    fn describe(&self) -> (d: TextTree) {
        let mut children: Vec<TextTree> = Vec::new();
        let mut k: usize = 0;
        while k < self.matchers.len()
            invariant
                k <= self.matchers@.len(),
                self.wf(),
                children@.len() == k,
                forall|i: int| 0 <= i < k ==> self.matchers@[i].description_ok(
                    #[trigger] children@[i],
                ),
            decreases self.matchers@.len() - k,
        {
            let d = self.matchers[k].describe();
            children.push(d);
            k = k + 1;
        }
        TextTree::unordered_list("variant", children)
    }
}

/// When the matchers before position `k` ran with the recorded
/// results `seen`, all of them matches, and the rest of the chain
/// accounts for `r`, the whole chain accounts for `r`.
proof fn lemma_chain_skip<U, M: Matcher<U>>(
    ms: Seq<M>,
    u: U,
    r: MatchResult,
    k: int,
    seen: Seq<MatchResult>,
)
    requires
        0 <= k <= ms.len(),
        seen.len() == k,
        forall|j: int| 0 <= j < k ==> ms[j].outcome_ok(u, #[trigger] seen[j]),
        forall|j: int| 0 <= j < k ==> (#[trigger] seen[j]) is Matched,
        chain_ok(ms.skip(k), u, r),
    ensures
        chain_ok(ms, u, r),
    decreases k,
{
    if k == 0 {
        assert(ms.skip(0) =~= ms);
    } else {
        assert(ms.drop_first().skip(k - 1) =~= ms.skip(k));
        assert(forall|j: int| 0 <= j < k - 1 ==> #[trigger] seen.drop_first()[j] == seen[j + 1]);
        assert(forall|j: int| 0 <= j < k - 1 ==> ms.drop_first()[j].outcome_ok(
            u,
            #[trigger] seen.drop_first()[j],
        ));
        lemma_chain_skip(ms.drop_first(), u, r, k - 1, seen.drop_first());
        assert(ms[0].outcome_ok(u, seen[0]) && !(seen[0] is Unmatched) && chain_ok(
            ms.drop_first(),
            u,
            r,
        ));
    }
}

/// Short-circuit law: when the first matcher of a chain can only
/// mismatch, the chain's result is that matcher's own result,
/// unchanged — no wrapping is added and nothing later can override it.
pub proof fn lemma_chain_short_circuit<U, M: Matcher<U>>(ms: Seq<M>, u: U, r: MatchResult)
    requires
        ms.len() > 0,
        chain_ok(ms, u, r),
        forall|r0: MatchResult| #[trigger] ms[0].outcome_ok(u, r0) ==> r0 is Unmatched,
    ensures
        ms[0].outcome_ok(u, r),
        r is Unmatched,
{
}

/// A matcher that a value satisfies when `extract` recognises its
/// variant and every matcher in `matchers` accepts the extracted
/// feature. A value of the wrong variant yields an empty explanation.
pub fn is_variant<T, U: Copy, M: Matcher<U>, F: Fn(T) -> Option<U>>(extract: F, matchers: Vec<M>) -> (r:
    VariantMatcher<T, U, M, F>)
    requires
        forall|t: T| call_requires(extract, (t,)),
        forall|i: int| 0 <= i < matchers@.len() ==> (#[trigger] matchers@[i]).wf(),
    ensures
        r.wf(),
        r.extract == extract,
        r.matchers == matchers,
{
    VariantMatcher { extract, matchers, marker: core::marker::PhantomData }
}

} // verus!
