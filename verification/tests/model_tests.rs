use timeline::{from_wire, sort_entries, to_wire, Date, Entry, Parse, TimelineError, WireDate};

#[test]
fn test_date_common_era() {
    assert!(Date::new(0).commmon_era());
    assert!(Date::new(2000).commmon_era());
    assert!(!Date::new(-1).commmon_era());
}

#[test]
fn test_date_era_text() {
    assert_eq!(Date::new(0).era_text(), "CE");
    assert_eq!(Date::new(-300).era_text(), "BCE");
}

#[test]
fn test_date_abs_year() {
    assert_eq!(Date::new(-44).abs_year(), 44);
    assert_eq!(Date::new(1990).abs_year(), 1990);
    assert_eq!(Date::new(0).abs_year(), 0);
}

#[test]
fn test_date_year() {
    assert_eq!(Date::new(-44).year(), -44);
    assert_eq!(Date::new(7).year(), 7);
}

#[test]
fn test_date_display() {
    assert_eq!(Date::new(-44).display_string(), "44 BCE".to_string());
    assert_eq!(Date::new(1234).display_string(), "1234 CE".to_string());
    assert_eq!(Date::new(0).display_string(), "0 CE".to_string());
    assert_eq!(Date::new(-2147483647).display_string(), "2147483647 BCE".to_string());
}

#[test]
fn test_date_arithmetic() {
    assert_eq!(Date::new(10).plus(Date::new(5)), Date::new(15));
    assert_eq!(Date::new(10).minus(Date::new(25)), Date::new(-15));
}

#[test]
fn test_wire_round_trip_point() {
    let e = Entry::point("caesar".to_string(), Some("rome".to_string()), Date::new(-44));
    let w = to_wire(&e);
    assert_eq!(w.date, WireDate::Year(-44));
    assert_eq!(from_wire(w), e);
}

#[test]
fn test_wire_round_trip_range() {
    let e = Entry::range("republic".to_string(), None, Date::new(-509), Date::new(-27));
    let w = to_wire(&e);
    assert_eq!(
        w.date,
        WireDate::Span {
            start: -509,
            end: -27
        }
    );
    assert_eq!(from_wire(w), e);
}

#[test]
fn test_parse_builds_point_when_years_match() {
    let args = Parse {
        yaml: false,
        pretty: false,
        label: "x".to_string(),
        tag: Some("t".to_string()),
        start: 5,
        end: 5,
    };
    let e = args.entry();
    assert!(e.is_point());
    assert_eq!(e, Entry::point("x".to_string(), Some("t".to_string()), Date::new(5)));
}

#[test]
fn test_parse_builds_range_otherwise() {
    let args = Parse {
        yaml: false,
        pretty: false,
        label: "x".to_string(),
        tag: None,
        start: 5,
        end: 9,
    };
    let e = args.entry();
    assert!(!e.is_point());
    assert_eq!(
        e,
        Entry::range("x".to_string(), None, Date::new(5), Date::new(9))
    );
}

#[test]
fn test_sort_entries_heap_order() {
    let entries = vec![
        Entry::point("b".to_string(), None, Date::new(1)),
        Entry::point("a".to_string(), Some("t".to_string()), Date::new(9)),
        Entry::point("a".to_string(), None, Date::new(9)),
        Entry::range("a".to_string(), None, Date::new(1), Date::new(2)),
    ];
    let sorted = sort_entries(entries);
    // lexicographic by label, then tag (absent first), then date (points
    // before ranges)
    assert_eq!(
        sorted,
        vec![
            Entry::point("a".to_string(), None, Date::new(9)),
            Entry::range("a".to_string(), None, Date::new(1), Date::new(2)),
            Entry::point("a".to_string(), Some("t".to_string()), Date::new(9)),
            Entry::point("b".to_string(), None, Date::new(1)),
        ]
    );
}

#[test]
fn test_error_kinds_are_distinct() {
    let kinds = [
        TimelineError::SourceUnavailable,
        TimelineError::MalformedSource,
        TimelineError::EmptyInput,
        TimelineError::ZeroInterval,
    ];
    for (i, a) in kinds.iter().enumerate() {
        for (j, b) in kinds.iter().enumerate() {
            assert_eq!(a == b, i == j);
        }
    }
}
