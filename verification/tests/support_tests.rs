use ranking::errmap::ErrorMap;
use ranking::model::{CitationRecord, RawRecord};
use ranking::secrets::Secret;

#[test]
fn secret_round_trip() {
    let s = Secret::new(String::from("SECRET-REDACTED"));
    assert_eq!(s.expose(), "SECRET-REDACTED");
    let owned = s.expose_owned();
    assert_eq!(owned, "SECRET-REDACTED");
}

#[test]
fn secret_holds_any_value() {
    let s = Secret::new(5432u16);
    assert_eq!(*s.expose(), 5432);
    let t = s.clone();
    assert_eq!(t.expose_owned(), 5432);
}

#[test]
fn error_map_groups_by_key_in_first_occurrence_order() {
    let pairs = vec![
        (String::from("password"), String::from("is required")),
        (String::from("host"), String::from("is required")),
        (String::from("password"), String::from("is too short")),
    ];
    let m = ErrorMap::from_pairs(pairs);
    let entries = m.entries();
    assert_eq!(entries.len(), 2);
    assert_eq!(entries[0].0, "password");
    assert_eq!(entries[0].1, vec!["is required", "is too short"]);
    assert_eq!(entries[1].0, "host");
    assert_eq!(entries[1].1, vec!["is required"]);
}

#[test]
fn error_map_of_nothing_is_empty() {
    let m = ErrorMap::from_pairs(Vec::new());
    assert!(m.entries().is_empty());
}

#[test]
fn parse_accepts_the_full_i32_range() {
    let ok = CitationRecord::parse(&RawRecord {
        document_id: String::from("x"),
        citation_count: i32::MAX as i64,
        publication_year: 2000,
    })
    .unwrap();
    assert_eq!(ok.citation_count, i32::MAX);
    assert_eq!(ok.document_id, "x");
    assert_eq!(ok.publication_year, 2000);
}

#[test]
fn parse_rejects_negative_and_oversized_counts() {
    let neg = CitationRecord::parse(&RawRecord {
        document_id: String::from("x"),
        citation_count: -1,
        publication_year: 2000,
    });
    assert!(neg.is_none());
    let big = CitationRecord::parse(&RawRecord {
        document_id: String::from("x"),
        citation_count: i32::MAX as i64 + 1,
        publication_year: 2000,
    });
    assert!(big.is_none());
}
