use rargs::{Range, RegexContext};

fn date_context() -> RegexContext {
    let names: Vec<Option<String>> =
        vec![None, Some("year".to_string()), None, None];
    let texts: Vec<Vec<Option<String>>> = vec![vec![
        Some("2018-10-21".to_string()),
        Some("2018".to_string()),
        Some("10".to_string()),
        Some("21".to_string()),
    ]];
    RegexContext::from_captures("2018-10-21", &names, &texts)
}

#[test]
fn lookup_by_name_and_positional_keys() {
    let ctx = date_context();
    assert_eq!(ctx.get_by_name("year"), Some("2018".to_string()));
    assert_eq!(ctx.get_by_name(""), Some("2018-10-21".to_string()));
    assert_eq!(ctx.get_by_name("0"), Some("2018-10-21".to_string()));
    assert_eq!(ctx.get_by_name("month"), None);
}

#[test]
fn put_overrides_earlier_entries() {
    let ctx = date_context().put("year", "1999".to_string()).build();
    assert_eq!(ctx.get_by_name("year"), Some("1999".to_string()));
}

#[test]
fn joined_and_split_single_agree() {
    // The joined resolution of a single in-range index is the sole
    // element of its split resolution.
    let ctx = date_context();
    for n in 0..=3i32 {
        let joined = ctx.get_by_range(&Range::Single(n), None);
        let split = ctx.get_by_split_range(&Range::Single(n));
        assert_eq!(split, vec![joined.clone().unwrap()]);
        assert!(joined.is_some());
    }
}

#[test]
fn bounded_with_equal_ends_collapses_to_single() {
    let ctx = date_context();
    for n in 1..=3i32 {
        assert_eq!(
            ctx.get_by_range(&Range::Both(n, n), None),
            ctx.get_by_range(&Range::Single(n), None)
        );
        assert_eq!(
            ctx.get_by_split_range(&Range::Both(n, n)),
            ctx.get_by_split_range(&Range::Single(n))
        );
    }
}

#[test]
fn full_range_equals_open_forms() {
    let ctx = date_context();
    let full = ctx.get_by_range(&Range::Inf, None);
    assert_eq!(full, Some("2018 10 21".to_string()));
    assert_eq!(ctx.get_by_range(&Range::RightInf(1), None), full);
    assert_eq!(ctx.get_by_range(&Range::LeftInf(-1), None), full);
    let full_split = ctx.get_by_split_range(&Range::Inf);
    assert_eq!(ctx.get_by_split_range(&Range::RightInf(1)), full_split);
    assert_eq!(ctx.get_by_split_range(&Range::LeftInf(-1)), full_split);
}

#[test]
fn translate_negative_index_round_trip() {
    let ctx = date_context();
    assert_eq!(ctx.translate_neg_index(-1), 3);
    assert_eq!(ctx.translate_neg_index(-3), 1);
    assert_eq!(ctx.translate_neg_index(2), 2);
    assert_eq!(ctx.translate_neg_index(-9), 0);
}

#[test]
fn default_separator_is_replaced_by_builder_step() {
    let ctx = date_context().default_sep("/".to_string()).build();
    assert_eq!(ctx.get_by_range(&Range::Inf, None), Some("2018/10/21".to_string()));
    assert_eq!(ctx.get_by_range(&Range::Inf, Some(":")), Some("2018:10:21".to_string()));
}

#[test]
fn out_of_range_and_inverted_ranges_resolve_to_nothing() {
    let ctx = date_context();
    assert_eq!(ctx.get_by_range(&Range::Single(9), None), None);
    assert_eq!(ctx.get_by_range(&Range::Both(3, 1), None), None);
    assert_eq!(ctx.get_by_range(&Range::RightInf(9), None), None);
    assert_eq!(ctx.get_by_split_range(&Range::RightInf(9)), Vec::<String>::new());
}

#[test]
fn non_participating_slots_are_skipped() {
    let names: Vec<Option<String>> = vec![None, None, Some("d".to_string()), None];
    let texts: Vec<Vec<Option<String>>> = vec![
        vec![Some("AZ".to_string()), Some("A".to_string()), None, Some("Z".to_string())],
        vec![Some("B9".to_string()), Some("B".to_string()), Some("9".to_string()), None],
    ];
    let ctx = RegexContext::from_captures("AZB9", &names, &texts);
    assert_eq!(
        ctx.get_by_split_range(&Range::Inf),
        vec!["A".to_string(), "Z".to_string(), "B".to_string(), "9".to_string()]
    );
    assert_eq!(ctx.get_by_name("d"), Some("9".to_string()));
}

#[test]
fn builder_maps_empty_and_zero_names_to_whole_line() {
    let re = regex::Regex::new(r"(\d+)").unwrap();
    let ctx = RegexContext::builder(&re, "a1b");
    assert_eq!(ctx.get_by_name(""), Some("a1b".to_string()));
    assert_eq!(ctx.get_by_name("0"), Some("a1b".to_string()));
}
