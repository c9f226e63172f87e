use timeline::{
    filter_entries, index, interval, text_handler, Date, Entry, TimelineError, INDENT,
    INDENT_SIZE, PRELUDE, PRELUDE_SIZE, SAME_LINE_INDENT, SAME_LINE_PRELUDE,
};

#[test]
fn assert_indent_size() {
    assert_eq!(INDENT.len(), INDENT_SIZE);
    assert_eq!(SAME_LINE_INDENT.len(), INDENT_SIZE);
}

#[test]
fn assert_prelude_size() {
    assert_eq!(PRELUDE.len(), PRELUDE_SIZE);
    assert_eq!(SAME_LINE_PRELUDE.len(), PRELUDE_SIZE);
}

#[test]
fn test_interval_formula() {
    // three entries spanning years 1..=9: (9 - 1) / (3 * 3 / 2) = 2
    assert_eq!(interval(1, 9, 3), 2);
    // one entry spanning 0..=10: 10 / 1 = 10
    assert_eq!(interval(0, 10, 1), 10);
}

#[test]
fn test_index_formula() {
    assert_eq!(index(1, 1, 2), 0);
    assert_eq!(index(1, 5, 2), 2);
    assert_eq!(index(1, 9, 2), 4);
}

#[test]
fn test_render_three_points() {
    // entries A:[1,1], B:[5,5], C:[9,9]: start=1, end=9, interval=(9-1)/4=2,
    // buckets at indices 0, 2 and 4 of the five blocks
    let entries = vec![
        Entry::point("A".to_string(), None, Date::new(1)),
        Entry::point("B".to_string(), None, Date::new(5)),
        Entry::point("C".to_string(), None, Date::new(9)),
    ];
    let out = text_handler(entries).unwrap();
    assert_eq!(
        out,
        "|  1 CE: A\n\n|\n\n|  5 CE: B\n\n|\n\n|  9 CE: C\n\n".to_string()
    );
}

#[test]
fn test_render_overlap_staircase() {
    // A and B share the first bucket; B gets the backslash staircase line
    let entries = vec![
        Entry::point("B".to_string(), None, Date::new(1)),
        Entry::point("A".to_string(), None, Date::new(1)),
        Entry::point("C".to_string(), None, Date::new(9)),
    ];
    let out = text_handler(entries).unwrap();
    assert_eq!(
        out,
        "|  1 CE: A\n \\\\ 1 CE: B\n\n|\n\n|\n\n|\n\n|  9 CE: C\n\n".to_string()
    );
}

#[test]
fn test_render_single_range() {
    // a single range wide enough to bucket: exactly one populated block and
    // one adjacent empty-marker block
    let entries = vec![Entry::range(
        "X".to_string(),
        None,
        Date::new(0),
        Date::new(10),
    )];
    let out = text_handler(entries).unwrap();
    assert_eq!(out, "|  0 CE - 10 CE: X\n\n|\n\n".to_string());
}

#[test]
fn test_render_empty_input_error() {
    assert_eq!(text_handler(vec![]), Err(TimelineError::EmptyInput));
}

#[test]
fn test_render_zero_interval_error() {
    // a single point spans zero years, which must trip the degenerate-span
    // guard rather than loop or divide by zero
    let entries = vec![Entry::point("X".to_string(), None, Date::new(3))];
    assert_eq!(text_handler(entries), Err(TimelineError::ZeroInterval));
    // a narrow span also collapses: three entries within two years
    let narrow = vec![
        Entry::point("A".to_string(), None, Date::new(0)),
        Entry::point("B".to_string(), None, Date::new(1)),
        Entry::point("C".to_string(), None, Date::new(1)),
    ];
    assert_eq!(text_handler(narrow), Err(TimelineError::ZeroInterval));
}

#[test]
fn test_render_bce_years() {
    let entries = vec![
        Entry::range("old".to_string(), None, Date::new(-44), Date::new(-14)),
        Entry::point("late".to_string(), None, Date::new(14)),
    ];
    let out = text_handler(entries).unwrap();
    assert!(out.starts_with("|  44 BCE - 14 BCE: old\n\n"));
    assert!(out.ends_with("|  14 CE: late\n\n"));
}

#[test]
fn test_filter_by_tag() {
    let entries = vec![
        Entry::point("a".to_string(), Some("war".to_string()), Date::new(1)),
        Entry::point("b".to_string(), Some("peace".to_string()), Date::new(2)),
        Entry::point("c".to_string(), None, Date::new(3)),
    ];
    let kept = filter_entries(entries, &Some("war".to_string()), &None);
    // entries without a tag always survive the tag filter
    let labels: Vec<String> = kept.iter().map(|e| e.label()).collect();
    assert_eq!(labels, vec!["a".to_string(), "c".to_string()]);
}

#[test]
fn test_filter_by_label() {
    let entries = vec![
        Entry::point("alpha".to_string(), None, Date::new(1)),
        Entry::point("beta".to_string(), None, Date::new(2)),
        Entry::point("gamma".to_string(), None, Date::new(3)),
    ];
    let kept = filter_entries(entries, &None, &Some("a".to_string()));
    assert_eq!(kept.len(), 3);
    let entries = vec![
        Entry::point("alpha".to_string(), None, Date::new(1)),
        Entry::point("beta".to_string(), None, Date::new(2)),
        Entry::point("gamma".to_string(), None, Date::new(3)),
    ];
    let kept = filter_entries(entries, &None, &Some("et".to_string()));
    let labels: Vec<String> = kept.iter().map(|e| e.label()).collect();
    assert_eq!(labels, vec!["beta".to_string()]);
}

#[test]
fn test_filter_both_conditions() {
    let entries = vec![
        Entry::point("alpha".to_string(), Some("x".to_string()), Date::new(1)),
        Entry::point("beta".to_string(), Some("y".to_string()), Date::new(2)),
    ];
    let kept = filter_entries(
        entries,
        &Some("x".to_string()),
        &Some("alp".to_string()),
    );
    let labels: Vec<String> = kept.iter().map(|e| e.label()).collect();
    assert_eq!(labels, vec!["alpha".to_string()]);
}

#[test]
fn test_render_bucket_order_is_heap_order() {
    // within one bucket, entries appear in label order, not input order
    let entries = vec![
        Entry::point("c".to_string(), None, Date::new(1)),
        Entry::point("a".to_string(), None, Date::new(2)),
        Entry::point("b".to_string(), None, Date::new(1)),
        Entry::point("z".to_string(), None, Date::new(30)),
    ];
    let out = text_handler(entries).unwrap();
    let first_block = out.split("\n\n").next().unwrap();
    assert_eq!(
        first_block,
        "|  2 CE: a\n \\\\ 1 CE: b\n \\\\\\ 1 CE: c"
    );
}
