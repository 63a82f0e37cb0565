use rargs::Rargs;

const DATE_PATTERN: &str = r"(?P<year>\d{4})-(\d{2})-(\d{2})";

fn date_rargs(template: &str) -> Rargs {
    let cmd: Vec<String> = vec!["echo".to_string(), template.to_string()];
    Rargs::new(Some(DATE_PATTERN), None, " ", &cmd).expect("pattern compiles")
}

#[test]
fn named_and_numbered_join() {
    let r = date_rargs("{year}/{2}/{3}");
    assert_eq!(r.get_args("2018-10-21", 1), vec!["2018/10/21".to_string()]);
}

#[test]
fn split_range_fans_out() {
    let r = date_rargs("{1...}");
    assert_eq!(
        r.get_args("2018-10-21", 1),
        vec!["2018".to_string(), "10".to_string(), "21".to_string()]
    );
}

#[test]
fn bounded_range_with_custom_separator() {
    let r = date_rargs("{1..2:-}");
    assert_eq!(r.get_args("2018-10-21", 1), vec!["2018-10".to_string()]);
}

#[test]
fn unmatched_name_gives_empty_argument() {
    let r = date_rargs("{foo}");
    assert_eq!(r.get_args("2018-10-21", 1), vec!["".to_string()]);
}

#[test]
fn line_number_pseudo_field() {
    // Start value 5, third processed line: 5 - 1 + 3 = 7.
    let r = date_rargs("{LN}");
    assert_eq!(r.get_args("2018-10-21", 7), vec!["7".to_string()]);
    let r2 = date_rargs("{LINENUM}");
    assert_eq!(r2.get_args("2018-10-21", 7), vec!["7".to_string()]);
}

#[test]
fn negative_line_number_renders_sign() {
    let r = date_rargs("{LN}");
    assert_eq!(r.get_args("2018-10-21", -3), vec!["-3".to_string()]);
}

#[test]
fn plain_template_is_one_literal_argument() {
    let r = date_rargs("hello");
    assert_eq!(r.get_args("2018-10-21", 1), vec!["hello".to_string()]);
    assert_eq!(r.get_args("anything else", 2), vec!["hello".to_string()]);
}

#[test]
fn empty_template_contributes_no_argument() {
    let r = date_rargs("");
    assert_eq!(r.get_args("2018-10-21", 1), Vec::<String>::new());
}

#[test]
fn whole_match_fields() {
    let r = date_rargs("{}");
    assert_eq!(r.get_args("2018-10-21", 1), vec!["2018-10-21".to_string()]);
    let r0 = date_rargs("{0}");
    assert_eq!(r0.get_args("2018-10-21", 1), vec!["2018-10-21".to_string()]);
}

#[test]
fn negative_index_counts_from_end() {
    let r = date_rargs("{-1}");
    assert_eq!(r.get_args("2018-10-21", 1), vec!["21".to_string()]);
    let r2 = date_rargs("{-3}");
    assert_eq!(r2.get_args("2018-10-21", 1), vec!["2018".to_string()]);
}

#[test]
fn open_ended_ranges() {
    let r = date_rargs("{..2}");
    assert_eq!(r.get_args("2018-10-21", 1), vec!["2018 10".to_string()]);
    let r2 = date_rargs("{2..}");
    assert_eq!(r2.get_args("2018-10-21", 1), vec!["10 21".to_string()]);
    let r3 = date_rargs("{..}");
    assert_eq!(r3.get_args("2018-10-21", 1), vec!["2018 10 21".to_string()]);
}

#[test]
fn full_range_with_separator_override() {
    let r = date_rargs("{..:-}");
    assert_eq!(r.get_args("2018-10-21", 1), vec!["2018-10-21".to_string()]);
}

#[test]
fn out_of_range_index_contributes_empty() {
    let r = date_rargs("x{9}y");
    assert_eq!(r.get_args("2018-10-21", 1), vec!["xy".to_string()]);
}

#[test]
fn out_of_range_split_contributes_nothing() {
    let r = date_rargs("{9...}");
    assert_eq!(r.get_args("2018-10-21", 1), Vec::<String>::new());
}

#[test]
fn inverted_range_contributes_empty() {
    let r = date_rargs("a{3..1}b");
    assert_eq!(r.get_args("2018-10-21", 1), vec!["ab".to_string()]);
}

#[test]
fn unrecognized_field_stays_literal() {
    let r = date_rargs("{1..2x}");
    assert_eq!(r.get_args("2018-10-21", 1), vec!["{1..2x}".to_string()]);
}

#[test]
fn oversized_integer_field_stays_literal() {
    let r = date_rargs("{99999999999}");
    assert_eq!(r.get_args("2018-10-21", 1), vec!["{99999999999}".to_string()]);
}

#[test]
fn named_field_allows_surrounding_spaces() {
    let r = date_rargs("{ year }");
    assert_eq!(r.get_args("2018-10-21", 1), vec!["2018".to_string()]);
}

#[test]
fn adjacent_split_and_join_stay_separate() {
    let r = date_rargs("a{1...2}b");
    assert_eq!(
        r.get_args("2018-10-21", 1),
        vec!["a".to_string(), "2018".to_string(), "10".to_string(), "b".to_string()]
    );
}

#[test]
fn multiple_matches_extend_the_group_sequence() {
    let cmd: Vec<String> = vec!["echo".to_string(), "{1...}".to_string()];
    let r = Rargs::new(Some(r"(\d+)"), None, " ", &cmd).unwrap();
    assert_eq!(
        r.get_args("a1b22c333", 1),
        vec!["1".to_string(), "22".to_string(), "333".to_string()]
    );
}

#[test]
fn repeated_named_capture_last_match_wins() {
    let cmd: Vec<String> = vec!["echo".to_string(), "{x}".to_string()];
    let r = Rargs::new(Some(r"(?P<x>\d+)"), None, " ", &cmd).unwrap();
    assert_eq!(r.get_args("a1b22", 1), vec!["22".to_string()]);
}

#[test]
fn delimiter_option_builds_field_pattern() {
    let cmd: Vec<String> = vec!["echo".to_string(), "{2}".to_string()];
    let r = Rargs::new(None, Some(","), " ", &cmd).unwrap();
    assert_eq!(r.get_args("a,b,c", 1), vec!["b".to_string()]);
}

#[test]
fn default_pattern_splits_on_whitespace() {
    let cmd: Vec<String> = vec!["echo".to_string(), "{1}".to_string()];
    let r = Rargs::new(None, None, " ", &cmd).unwrap();
    assert_eq!(r.get_args("alpha beta", 1), vec!["alpha".to_string()]);
}

#[test]
fn invalid_pattern_is_rejected_at_startup() {
    let cmd: Vec<String> = vec!["echo".to_string()];
    assert!(Rargs::new(Some(r"(unclosed"), None, " ", &cmd).is_none());
}

#[test]
fn several_templates_expand_in_order() {
    let cmd: Vec<String> =
        vec!["echo".to_string(), "{year}".to_string(), "{2...}".to_string(), "end".to_string()];
    let r = Rargs::new(Some(DATE_PATTERN), None, " ", &cmd).unwrap();
    assert_eq!(
        r.get_args("2018-10-21", 1),
        vec!["2018".to_string(), "10".to_string(), "21".to_string(), "end".to_string()]
    );
}
