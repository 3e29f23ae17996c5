//! A small assertion library built around two pieces: an explanation
//! tree that renders structured diagnostic text with contextual
//! indentation, and a matcher protocol whose combinators compose
//! mismatch explanations that mirror the shape of the value checked.

use vstd::prelude::*;

pub mod matchers;
pub mod text_tree;

verus! {

use crate::text_tree::{TextTree, render_spec, with_indent, lemma_with_indent_empty,
    lemma_render_at_indent, spaces, newline_at, render_at, render_lines_rest};

/// The result of trying to match a value: either the value satisfied
/// the matcher, or it did not, with an explanation of why.
#[derive(Debug, PartialEq)]
pub enum MatchResult {
    Matched,
    Unmatched { explanation: TextTree },
}

impl MatchResult {
    pub fn matched() -> (r: MatchResult)
        ensures
            r == MatchResult::Matched,
    {
        MatchResult::Matched
    }

    pub fn unmatched(explanation: TextTree) -> (r: MatchResult)
        ensures
            r == (MatchResult::Unmatched { explanation }),
    {
        MatchResult::Unmatched { explanation }
    }
}

/// The matcher capability: evaluate a value, yielding `Matched` or
/// `Unmatched` with an explanation, and describe, independently of any
/// value, what would be considered a match.
///
/// Each implementation states its own contract through three spec
/// functions: `wf` holds the construction-time facts evaluation relies
/// on, `outcome_ok` says which results are consistent with a given
/// value, and `description_ok` says which trees describe the matcher.
pub trait Matcher<T> {
    spec fn wf(&self) -> bool;

    spec fn outcome_ok(&self, value: T, r: MatchResult) -> bool;

    spec fn description_ok(&self, d: TextTree) -> bool;

    /// Evaluate `value`. Pure: safe to call any number of times.
    fn match_value(&self, value: T) -> (r: MatchResult)
        requires
            self.wf(),
        ensures
            self.outcome_ok(value, r),
    ;

    /// A value-independent description of what would match.
    fn describe(&self) -> (d: TextTree)
        requires
            self.wf(),
        ensures
            self.description_ok(d),
    ;
}

/// The rendered failure report for a mismatch: an empty first line,
/// then `Expected:` over the indented description, then `but:` over
/// the indented explanation.
pub open spec fn failure_report(desc: TextTree, expl: TextTree) -> Seq<char> {
    seq!['\n'] + "Expected"@ + seq![':', '\n', ' ', ' '] + with_indent(
        render_spec(desc),
        seq![' ', ' '],
    ) + seq!['\n'] + "but"@ + seq![':', '\n', ' ', ' '] + with_indent(
        render_spec(expl),
        seq![' ', ' '],
    )
}

/// Check that `value` satisfies `matcher`. On a match the result is
/// `Ok`; on a mismatch it is `Err` with the fully rendered failure
/// report, which the caller may signal as a test failure.
pub fn assert_that<T, M: Matcher<T>>(value: T, matcher: M) -> (r: Result<(), String>)
    requires
        matcher.wf(),
    ensures
        r is Ok ==> matcher.outcome_ok(value, MatchResult::Matched),
        r matches Err(msg) ==> exists|desc: TextTree, expl: TextTree|
            matcher.outcome_ok(value, MatchResult::Unmatched { explanation: expl })
                && matcher.description_ok(desc) && msg@ == failure_report(desc, expl),
{
    let result = matcher.match_value(value);

    match result {
        MatchResult::Matched => Ok(()),
        MatchResult::Unmatched { explanation } => {
            let ghost expl = explanation;
            let description = matcher.describe();
            let ghost desc = description;
            let first = TextTree::text("");
            let expected_part = TextTree::nested(TextTree::text("Expected"), description);
            let but_part = TextTree::nested(TextTree::text("but"), explanation);
            let mut items: Vec<TextTree> = Vec::new();
            items.push(first);
            items.push(expected_part);
            items.push(but_part);
            let report = TextTree::lines(items);
            let rendered = report.render();
            proof {
                reveal_strlit("");
                let e = Seq::<char>::empty();
                let iv = items@;
                lemma_with_indent_empty(iv[0]->Text_0@);
                assert(render_at(iv[0], e) == e);
                lemma_nested_renders(iv[1], e);
                lemma_nested_renders(iv[2], e);
                assert(iv.drop_first().drop_first().drop_first() =~= Seq::<TextTree>::empty());
                assert(iv.drop_first()[0] == iv[1]);
                assert(iv.drop_first().drop_first()[0] == iv[2]);
                assert(render_lines_rest(Seq::<TextTree>::empty(), e) == Seq::<char>::empty());
                assert(render_lines_rest(iv.drop_first().drop_first(), e) =~= newline_at(e)
                    + render_at(iv[2], e));
                assert(render_lines_rest(iv.drop_first(), e) =~= newline_at(e) + render_at(
                    iv[1],
                    e,
                ) + (newline_at(e) + render_at(iv[2], e)));
                assert(newline_at(e) =~= seq!['\n']);
                assert(rendered@ =~= failure_report(desc, expl));
                assert(matcher.outcome_ok(value, MatchResult::Unmatched { explanation: expl })
                    && matcher.description_ok(desc) && rendered@ == failure_report(desc, expl));
            }
            Err(rendered)
        },
    }
}

/// How a `Nested` node whose outer part is a text leaf renders at
/// top level: the heading, a colon, then the inner tree on a new line
/// indented two columns.
proof fn lemma_nested_renders(t: TextTree, e: Seq<char>)
    requires
        e == Seq::<char>::empty(),
        t is Nested,
        (*t->Nested_0) is Text,
    ensures
        render_at(t, e) == (*t->Nested_0)->Text_0@ + seq![':', '\n', ' ', ' '] + with_indent(
            render_spec(*t->Nested_1),
            seq![' ', ' '],
        ),
{
    let outer = t->Nested_0;
    let inner = t->Nested_1;
    lemma_with_indent_empty((*outer)->Text_0@);
    assert(render_at(*outer, e) == (*outer)->Text_0@);
    lemma_render_at_indent(*inner, spaces(2));
    assert(spaces(0) =~= Seq::<char>::empty());
    assert(spaces(1) =~= seq![' ']);
    assert(spaces(2) =~= seq![' ', ' ']);
    assert(e + spaces(2) =~= spaces(2));
    assert(newline_at(e + spaces(2)) =~= seq!['\n', ' ', ' ']);
    assert(render_at(t, e) == render_at(*outer, e) + seq![':'] + newline_at(e + spaces(2))
        + render_at(*inner, e + spaces(2)));
    assert(render_at(t, e) =~= (*outer)->Text_0@ + seq![':', '\n', ' ', ' '] + with_indent(
        render_spec(*inner),
        seq![' ', ' '],
    ));
}

} // verus!
