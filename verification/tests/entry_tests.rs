use timeline::{Date, Entry};

#[test]
fn lib_test_entry_with_end() {
    let entry = Entry::new("test".to_string(), Date::new(0), Date::new(1));
    assert_eq!(
        entry,
        Entry::range("test".to_string(), None, Date::new(0), Date::new(1))
    );
    assert_eq!(entry.label(), "test".to_string());
    assert_eq!(entry.tag(), None);
    assert_eq!(entry.start(), 0);
    assert_eq!(entry.end(), 1);
}

#[test]
fn lib_test_entry_no_end() {
    let entry = Entry::new("test".to_string(), Date::new(0), Date::new(0));
    assert_eq!(
        entry,
        Entry::range("test".to_string(), None, Date::new(0), Date::new(0))
    );
    assert_eq!(entry.start(), 0);
    assert_eq!(entry.end(), 0);
}

#[test]
fn lib_test_entry_traits() {
    let entry = Entry::new("test".to_string(), Date::new(0), Date::new(1));
    assert_eq!(
        entry,
        Entry::range("test".to_string(), None, Date::new(0), Date::new(1))
    );
}

#[test]
fn lib_test_entry_point() {
    let entry = Entry::point("test".to_string(), None, Date::new(0));
    assert!(entry.is_point());
    assert_eq!(entry.label(), "test".to_string());
    assert_eq!(entry.tag(), None);
    assert_eq!(entry.start(), 0);
    assert_eq!(entry.end(), 0);
}

#[test]
fn lib_test_entry_point_traits() {
    let entry = Entry::point("test".to_string(), None, Date::new(0));
    assert_eq!(entry, Entry::point("test".to_string(), None, Date::new(0)));
    assert!(entry.is_point());
}

#[test]
fn test_entry_range() {
    let entry = Entry::range("test".to_string(), None, Date::new(0), Date::new(1));
    assert_eq!(entry.label(), "test".to_string());
    assert_eq!(entry.tag(), None);
    assert!(!entry.is_point());
    assert_eq!(entry.start(), 0);
    assert_eq!(entry.end(), 1);
}

#[test]
fn test_entry_range_traits() {
    let entry = Entry::range("test".to_string(), None, Date::new(0), Date::new(1));
    assert_eq!(
        entry,
        Entry::range("test".to_string(), None, Date::new(0), Date::new(1))
    );
}

#[test]
fn lib_test_entry_display_point() {
    let entry = Entry::point("test".to_string(), None, Date::new(0));
    assert_eq!(entry.display_string(), "0 CE: test".to_string())
}

#[test]
fn lib_test_entry_display_range() {
    let entry = Entry::range("test".to_string(), None, Date::new(0), Date::new(1));
    assert_eq!(entry.display_string(), "0 CE - 1 CE: test".to_string());
}

#[test]
fn mod_test_entry_with_end() {
    let entry = Entry::range(
        "test".to_string(),
        Some("test".to_string()),
        Date::new(0),
        Date::new(1),
    );
    assert_eq!(entry.label(), "test".to_string());
    assert_eq!(entry.tag(), Some("test".to_string()));
    assert!(!entry.is_point());
    assert_eq!(entry.start(), 0);
    assert_eq!(entry.end(), 1);
}

#[test]
fn mod_test_entry_no_end() {
    let entry = Entry::range(
        "test".to_string(),
        Some("test".to_string()),
        Date::new(0),
        Date::new(0),
    );
    assert_eq!(entry.label(), "test".to_string());
    assert_eq!(entry.tag(), Some("test".to_string()));
    assert!(!entry.is_point());
    assert_eq!(entry.start(), 0);
    assert_eq!(entry.end(), 0);
}

#[test]
fn mod_test_entry_traits() {
    let entry = Entry::range(
        "test".to_string(),
        Some("test".to_string()),
        Date::new(0),
        Date::new(1),
    );
    assert_eq!(
        entry,
        Entry::range(
            "test".to_string(),
            Some("test".to_string()),
            Date::new(0),
            Date::new(1)
        )
    );
}

#[test]
fn mod_test_entry_point() {
    let entry = Entry::point("test".to_string(), Some("test".to_string()), Date::new(0));
    assert_eq!(entry.label(), "test".to_string());
    assert_eq!(entry.tag(), Some("test".to_string()));
    assert!(entry.is_point());
    assert_eq!(entry.start(), 0);
    assert_eq!(entry.end(), 0);
}

#[test]
fn mod_test_entry_point_traits() {
    let entry = Entry::point("test".to_string(), Some("test".to_string()), Date::new(0));
    assert_eq!(
        entry,
        Entry::point("test".to_string(), Some("test".to_string()), Date::new(0))
    );
}

#[test]
fn mod_test_entry_display_range() {
    let entry = Entry::range(
        "test".to_string(),
        Some("test".to_string()),
        Date::new(0),
        Date::new(1),
    );
    assert_eq!(
        entry.display_string(),
        "(test) 0 CE - 1 CE: test".to_string()
    );
}

#[test]
fn test_entry_display_range_no_tag() {
    let entry = Entry::range("test".to_string(), None, Date::new(0), Date::new(1));
    assert_eq!(entry.display_string(), "0 CE - 1 CE: test".to_string());
}

#[test]
fn mod_test_entry_display_point() {
    let entry = Entry::point("test".to_string(), Some("test".to_string()), Date::new(0));
    assert_eq!(entry.display_string(), "(test) 0 CE: test".to_string());
}

#[test]
fn test_entry_display_point_no_tag() {
    let entry = Entry::point("test".to_string(), None, Date::new(0));
    assert_eq!(entry.display_string(), "0 CE: test".to_string());
}

#[test]
fn test_entry_chronological_order() {
    // the relational comparison looks at start years only, not labels
    let a = Entry::point("z".to_string(), None, Date::new(1));
    let b = Entry::point("a".to_string(), None, Date::new(5));
    assert_eq!(a.partial_cmp(&b), Some(std::cmp::Ordering::Less));
    assert_eq!(b.partial_cmp(&a), Some(std::cmp::Ordering::Greater));
    let c = Entry::point("m".to_string(), None, Date::new(1));
    assert_eq!(a.partial_cmp(&c), Some(std::cmp::Ordering::Equal));
    assert!(a < b);
}

#[test]
fn test_entry_heap_order() {
    // the heap order compares labels first, then tags, then dates
    let a = Entry::point("a".to_string(), None, Date::new(900));
    let b = Entry::point("b".to_string(), None, Date::new(1));
    assert!(a.heap_le(&b));
    assert!(!b.heap_le(&a));
    let untagged = Entry::point("a".to_string(), None, Date::new(1));
    let tagged = Entry::point("a".to_string(), Some("t".to_string()), Date::new(1));
    assert!(untagged.heap_le(&tagged));
    assert!(!tagged.heap_le(&untagged));
}
