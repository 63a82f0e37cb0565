use rargs::{combine_with_context, group_combinations, ArgTemplate, Combination, RegexContext};

fn simple_context() -> RegexContext {
    let names: Vec<Option<String>> = vec![None, None, None];
    let texts: Vec<Vec<Option<String>>> = vec![vec![
        Some("AB".to_string()),
        Some("A".to_string()),
        Some("B".to_string()),
    ]];
    RegexContext::from_captures("AB", &names, &texts)
}

#[test]
fn adjacent_join_fragments_merge_into_one_unit() {
    let t = ArgTemplate::from("a{1}b");
    let combs = group_combinations(&t.fragments);
    assert_eq!(combs.len(), 1);
    assert!(matches!(&combs[0], Combination::Join(js) if js.len() == 3));
}

#[test]
fn split_fragment_stands_alone() {
    let t = ArgTemplate::from("a{1...}b");
    let combs = group_combinations(&t.fragments);
    assert_eq!(combs.len(), 3);
    assert!(matches!(&combs[0], Combination::Join(_)));
    assert!(matches!(&combs[1], Combination::Split(_)));
    assert!(matches!(&combs[2], Combination::Join(_)));
}

#[test]
fn empty_literals_around_split_are_dropped() {
    let t = ArgTemplate::from("{1...}");
    let combs = group_combinations(&t.fragments);
    assert_eq!(combs.len(), 1);
    assert!(matches!(&combs[0], Combination::Split(_)));
}

#[test]
fn empty_literal_does_not_break_an_open_join() {
    let t = ArgTemplate::from("{1}{2}");
    let combs = group_combinations(&t.fragments);
    assert_eq!(combs.len(), 1);
}

#[test]
fn combine_resolves_joins_and_splits_in_order() {
    let ctx = simple_context();
    let t = ArgTemplate::from("x{1}-{2}");
    let combs = group_combinations(&t.fragments);
    assert_eq!(combine_with_context(&ctx, &combs), vec!["xA-B".to_string()]);

    let t2 = ArgTemplate::from("{1...}");
    let combs2 = group_combinations(&t2.fragments);
    assert_eq!(
        combine_with_context(&ctx, &combs2),
        vec!["A".to_string(), "B".to_string()]
    );
}
