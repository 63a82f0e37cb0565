use rargs::{ArgFragment, ArgTemplate, Range};

#[test]
fn bare_integer_fields() {
    assert!(matches!(
        ArgFragment::parse("{3}"),
        ArgFragment::RangeGroup(Range::Single(3), None)
    ));
    assert!(matches!(
        ArgFragment::parse("{-2}"),
        ArgFragment::RangeGroup(Range::Single(-2), None)
    ));
    assert!(matches!(
        ArgFragment::parse("{ 7 }"),
        ArgFragment::RangeGroup(Range::Single(7), None)
    ));
}

#[test]
fn bare_word_fields() {
    assert!(matches!(ArgFragment::parse("{abc}"), ArgFragment::NamedGroup(s) if s == "abc"));
    assert!(matches!(ArgFragment::parse("{}"), ArgFragment::NamedGroup(s) if s.is_empty()));
    assert!(matches!(ArgFragment::parse("{a_1}"), ArgFragment::NamedGroup(s) if s == "a_1"));
}

#[test]
fn two_dot_range_fields() {
    assert!(matches!(
        ArgFragment::parse("{1..2}"),
        ArgFragment::RangeGroup(Range::Both(1, 2), None)
    ));
    assert!(matches!(
        ArgFragment::parse("{1..2:-}"),
        ArgFragment::RangeGroup(Range::Both(1, 2), Some(s)) if s == "-"
    ));
    assert!(matches!(
        ArgFragment::parse("{..2}"),
        ArgFragment::RangeGroup(Range::LeftInf(2), None)
    ));
    assert!(matches!(
        ArgFragment::parse("{3..}"),
        ArgFragment::RangeGroup(Range::RightInf(3), None)
    ));
    assert!(matches!(ArgFragment::parse("{..}"), ArgFragment::RangeGroup(Range::Inf, None)));
    assert!(matches!(
        ArgFragment::parse("{-2..-1}"),
        ArgFragment::RangeGroup(Range::Both(-2, -1), None)
    ));
    assert!(matches!(
        ArgFragment::parse("{..:sep text}"),
        ArgFragment::RangeGroup(Range::Inf, Some(s)) if s == "sep text"
    ));
    assert!(matches!(
        ArgFragment::parse("{1..2:}"),
        ArgFragment::RangeGroup(Range::Both(1, 2), Some(s)) if s.is_empty()
    ));
}

#[test]
fn three_dot_range_fields() {
    assert!(matches!(
        ArgFragment::parse("{1...2}"),
        ArgFragment::SplitRangeGroup(Range::Both(1, 2))
    ));
    assert!(matches!(ArgFragment::parse("{...}"), ArgFragment::SplitRangeGroup(Range::Inf)));
    assert!(matches!(
        ArgFragment::parse("{1...}"),
        ArgFragment::SplitRangeGroup(Range::RightInf(1))
    ));
    assert!(matches!(
        ArgFragment::parse("{...2}"),
        ArgFragment::SplitRangeGroup(Range::LeftInf(2))
    ));
}

#[test]
fn unreadable_bounds_fall_back_to_defaults() {
    // A bound that is present but does not read as a number keeps the
    // range open at that side's default.
    assert!(matches!(
        ArgFragment::parse("{-..}"),
        ArgFragment::RangeGroup(Range::RightInf(1), None)
    ));
    assert!(matches!(
        ArgFragment::parse("{1..-}"),
        ArgFragment::RangeGroup(Range::Both(1, -1), None)
    ));
}

#[test]
fn unrecognized_tokens_stay_literal() {
    assert!(matches!(ArgFragment::parse("{a b}"), ArgFragment::Literal(s) if s == "{a b}"));
    assert!(matches!(ArgFragment::parse("{1..2x}"), ArgFragment::Literal(s) if s == "{1..2x}"));
    assert!(matches!(ArgFragment::parse("{....}"), ArgFragment::Literal(s) if s == "{....}"));
    assert!(matches!(ArgFragment::parse("{1...2:-}"), ArgFragment::Literal(s) if s == "{1...2:-}"));
    assert!(matches!(ArgFragment::parse("plain"), ArgFragment::Literal(s) if s == "plain"));
    assert!(matches!(ArgFragment::parse("{open"), ArgFragment::Literal(s) if s == "{open"));
    assert!(matches!(
        ArgFragment::parse("{99999999999}"),
        ArgFragment::Literal(s) if s == "{99999999999}"
    ));
}

#[test]
fn integer_is_tried_before_word_and_ranges() {
    // Digits are word characters too; the integer form must win.
    assert!(matches!(
        ArgFragment::parse("{12}"),
        ArgFragment::RangeGroup(Range::Single(12), None)
    ));
    // Digits with a letter are a name, not a number.
    assert!(matches!(ArgFragment::parse("{12a}"), ArgFragment::NamedGroup(s) if s == "12a"));
}

#[test]
fn scanner_splits_literals_and_tokens() {
    let t = ArgTemplate::from("x {2} y");
    assert_eq!(t.fragments.len(), 3);
    assert!(matches!(&t.fragments[0], ArgFragment::Literal(s) if s == "x "));
    assert!(matches!(&t.fragments[1], ArgFragment::RangeGroup(Range::Single(2), None)));
    assert!(matches!(&t.fragments[2], ArgFragment::Literal(s) if s == " y"));
}

#[test]
fn scanner_restarts_candidate_at_inner_brace() {
    let t = ArgTemplate::from("a{b{c}d");
    assert_eq!(t.fragments.len(), 3);
    assert!(matches!(&t.fragments[0], ArgFragment::Literal(s) if s == "a{b"));
    assert!(matches!(&t.fragments[1], ArgFragment::NamedGroup(s) if s == "c"));
    assert!(matches!(&t.fragments[2], ArgFragment::Literal(s) if s == "d"));
}

#[test]
fn scanner_keeps_empty_edge_literals() {
    let t = ArgTemplate::from("{1}{2}");
    assert_eq!(t.fragments.len(), 5);
    assert!(matches!(&t.fragments[0], ArgFragment::Literal(s) if s.is_empty()));
    assert!(matches!(&t.fragments[2], ArgFragment::Literal(s) if s.is_empty()));
    assert!(matches!(&t.fragments[4], ArgFragment::Literal(s) if s.is_empty()));
}
