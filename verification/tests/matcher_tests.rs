use matchers::{assert_that, MatchResult, Matcher};
use matchers::matchers::anything::anything;
use matchers::matchers::equal_to::equal_to;
use matchers::matchers::has::has;
use matchers::matchers::is_variant::is_variant;

fn assert_unmatched(result: MatchResult, expected_explanation: &str) {
    match result {
        MatchResult::Matched => {
            panic!("expected unmatched, got matched");
        },
        MatchResult::Unmatched { explanation } => {
            assert_eq!(explanation.render(), expected_explanation);
        },
    }
}

#[test]
fn assert_that_returns_normally_if_matcher_matches() {
    assert_that(1, equal_to(1)).unwrap();
}

#[test]
#[should_panic(expected = "\nExpected:\n  2\nbut:\n  was 1")]
fn assert_that_panics_if_match_fails() {
    if let Err(message) = assert_that(1, equal_to(2)) {
        panic!("{}", message);
    }
}

#[test]
fn assert_that_reports_expected_and_actual() {
    let result = assert_that(1, equal_to(2));

    assert_eq!(result, Err("\nExpected:\n  2\nbut:\n  was 1".to_string()));
}

#[test]
fn matches_anything() {
    let matcher = anything();

    assert_eq!(matcher.match_value(4), MatchResult::matched());
    assert_eq!(matcher.match_value("hello"), MatchResult::matched());
}

#[test]
fn description_is_anything() {
    let matcher = anything();

    let result = <matchers::matchers::anything::AnythingMatcher as Matcher<i32>>::describe(
        &matcher,
    );

    assert_eq!(result.render(), "anything");
}

#[test]
fn matches_when_values_are_equal() {
    let matcher = equal_to(1);

    let result = matcher.match_value(1);

    assert_eq!(result, MatchResult::Matched);
}

#[test]
fn explanation_of_mismatch_contains_debug_string_of_actual() {
    let matcher = equal_to(1);

    let result = matcher.match_value(2);

    assert_unmatched(result, "was 2");
}

#[test]
fn description_is_debug_string_of_value() {
    let matcher = equal_to(1);

    let result = matcher.describe();

    assert_eq!(result.render(), "1");
}

#[test]
fn equality_is_symmetric_in_outcome() {
    assert_eq!(equal_to(7).match_value(7), MatchResult::matched());
    assert_eq!(equal_to("x").match_value("x"), MatchResult::matched());
    assert!(matches!(equal_to(7).match_value(8), MatchResult::Unmatched { .. }));
    assert!(matches!(equal_to(8).match_value(7), MatchResult::Unmatched { .. }));
}

struct User {
    username: String,
}

#[test]
fn matches_when_feature_has_correct_value() {
    let matcher = has("name", |user: &User| user.username.as_str(), equal_to("bob"));

    let result = matcher.match_value(&User { username: "bob".to_string() });

    assert_eq!(result, MatchResult::matched());
}

#[test]
fn explanation_of_mismatch_contains_mismatch_of_feature() {
    let matcher = has("name", |user: &User| user.username.as_str(), equal_to("bob"));

    let result = matcher.match_value(&User { username: "bobbity".to_string() });

    assert_unmatched(result, "name mismatched:\n  was \"bobbity\"");
}

#[test]
fn description_contains_description_of_feature() {
    let matcher = has("name", |user: &User| user.username.as_str(), equal_to("bob"));

    let result = matcher.describe();

    assert_eq!(result.render(), "name:\n  \"bob\"");
}

#[allow(dead_code)]
enum Single {
    X1,
    X2,
}

#[test]
fn can_match_singleton_variant() {
    let matcher = is_variant(
        |actual: Single| match actual {
            Single::X1 => Some(&()),
            _ => None,
        },
        Vec::<matchers::matchers::anything::AnythingMatcher>::new(),
    );

    let result = matcher.match_value(Single::X1);

    assert_eq!(result, MatchResult::matched());
}

#[allow(dead_code)]
enum EmptyTuple {
    X1(),
    X2,
}

#[test]
fn can_match_tuple_variant_with_no_fields() {
    let matcher = is_variant(
        |actual: EmptyTuple| match actual {
            EmptyTuple::X1() => Some(&()),
            _ => None,
        },
        Vec::<matchers::matchers::anything::AnythingMatcher>::new(),
    );

    let result = matcher.match_value(EmptyTuple::X1());

    assert_eq!(result, MatchResult::matched());
}

#[allow(dead_code)]
enum OneField {
    X1(i32),
    X2,
}

#[test]
fn can_match_tuple_variant_with_single_field() {
    let matcher = is_variant(
        |actual: OneField| match actual {
            OneField::X1(_) => Some(&()),
            _ => None,
        },
        Vec::<matchers::matchers::anything::AnythingMatcher>::new(),
    );

    let result = matcher.match_value(OneField::X1(42));

    assert_eq!(result, MatchResult::matched());
}

#[allow(dead_code)]
enum ThreeFields {
    X1(i32, i32, i32),
    X2,
}

#[test]
fn can_match_tuple_variant_with_many_fields() {
    let matcher = is_variant(
        |actual: ThreeFields| match actual {
            ThreeFields::X1(_, _, _) => Some(&()),
            _ => None,
        },
        Vec::<matchers::matchers::anything::AnythingMatcher>::new(),
    );

    let result = matcher.match_value(ThreeFields::X1(1, 2, 3));

    assert_eq!(result, MatchResult::matched());
}

#[test]
fn when_variant_and_submatchers_match_then_overall_matcher_matches() {
    let matcher = is_variant(
        |actual: ThreeFields| match actual {
            ThreeFields::X1(a, b, c) => Some((a, b, c)),
            _ => None,
        },
        vec![
            has(".0", (|x: (i32, i32, i32)| x.0) as fn((i32, i32, i32)) -> i32, equal_to(1)),
            has(".1", (|x: (i32, i32, i32)| x.1) as fn((i32, i32, i32)) -> i32, equal_to(2)),
            has(".2", (|x: (i32, i32, i32)| x.2) as fn((i32, i32, i32)) -> i32, equal_to(3)),
        ],
    );

    let result = matcher.match_value(ThreeFields::X1(1, 2, 3));

    assert_eq!(result, MatchResult::matched());
}

#[test]
fn when_any_submatcher_does_not_match_then_overall_matcher_mismatches() {
    let matcher = is_variant(
        |actual: ThreeFields| match actual {
            ThreeFields::X1(a, b, c) => Some((a, b, c)),
            _ => None,
        },
        vec![
            has(".0", (|x: (i32, i32, i32)| x.0) as fn((i32, i32, i32)) -> i32, equal_to(1)),
            has(".1", (|x: (i32, i32, i32)| x.1) as fn((i32, i32, i32)) -> i32, equal_to(4)),
            has(".2", (|x: (i32, i32, i32)| x.2) as fn((i32, i32, i32)) -> i32, equal_to(3)),
        ],
    );

    let result = matcher.match_value(ThreeFields::X1(1, 2, 3));

    assert_unmatched(result, ".1 mismatched:\n  was 2");
}

#[test]
fn first_failing_submatcher_wins_even_when_later_ones_also_fail() {
    let matcher = is_variant(
        |actual: ThreeFields| match actual {
            ThreeFields::X1(a, b, c) => Some((a, b, c)),
            _ => None,
        },
        vec![
            has(".0", (|x: (i32, i32, i32)| x.0) as fn((i32, i32, i32)) -> i32, equal_to(9)),
            has(".1", (|x: (i32, i32, i32)| x.1) as fn((i32, i32, i32)) -> i32, equal_to(9)),
        ],
    );

    let result = matcher.match_value(ThreeFields::X1(1, 2, 3));

    assert_unmatched(result, ".0 mismatched:\n  was 1");
}

#[test]
fn wrong_variant_yields_empty_explanation() {
    let matcher = is_variant(
        |actual: ThreeFields| match actual {
            ThreeFields::X1(a, b, c) => Some((a, b, c)),
            _ => None,
        },
        vec![
            has(".0", (|x: (i32, i32, i32)| x.0) as fn((i32, i32, i32)) -> i32, equal_to(1)),
        ],
    );

    let result = matcher.match_value(ThreeFields::X2);

    assert_unmatched(result, "");
}

#[test]
fn variant_matcher_describes_its_submatchers() {
    let matcher = is_variant(
        |actual: ThreeFields| match actual {
            ThreeFields::X1(a, b, c) => Some((a, b, c)),
            _ => None,
        },
        vec![
            has(".0", (|x: (i32, i32, i32)| x.0) as fn((i32, i32, i32)) -> i32, equal_to(1)),
            has(".1", (|x: (i32, i32, i32)| x.1) as fn((i32, i32, i32)) -> i32, equal_to(2)),
        ],
    );

    let result = matcher.describe();

    assert_eq!(result.render(), "variant:\n * .0:\n     1\n * .1:\n     2");
}

#[test]
fn nested_projections_explain_at_depth() {
    let matcher = has(
        "outer",
        |pair: (i32, i32)| pair.0,
        has("inner", |x: i32| x, equal_to(5)),
    );

    let result = matcher.match_value((3, 9));

    assert_unmatched(result, "outer mismatched:\n  inner mismatched:\n    was 3");
}

struct CountingMatcher {
    calls: std::cell::Cell<usize>,
    matches: bool,
}

impl Matcher<i32> for CountingMatcher {
    fn wf(&self) -> bool {
        true
    }

    fn outcome_ok(&self, _value: i32, _r: MatchResult) -> bool {
        true
    }

    fn description_ok(&self, _d: matchers::text_tree::TextTree) -> bool {
        true
    }

    fn match_value(&self, _value: i32) -> MatchResult {
        self.calls.set(self.calls.get() + 1);
        if self.matches {
            MatchResult::Matched
        } else {
            MatchResult::Unmatched { explanation: matchers::text_tree::TextTree::text("counted") }
        }
    }

    fn describe(&self) -> matchers::text_tree::TextTree {
        matchers::text_tree::TextTree::text("counting")
    }
}

#[test]
fn later_submatchers_are_not_evaluated_after_a_mismatch() {
    let first = CountingMatcher { calls: std::cell::Cell::new(0), matches: false };
    let second = CountingMatcher { calls: std::cell::Cell::new(0), matches: true };
    let matcher = is_variant(|x: i32| Some(x), vec![first, second]);

    let result = matcher.match_value(5);

    assert_unmatched(result, "counted");
    assert_eq!(matcher.matchers[0].calls.get(), 1);
    assert_eq!(matcher.matchers[1].calls.get(), 0);
}
