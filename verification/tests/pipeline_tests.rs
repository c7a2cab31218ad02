use ranking::errors::SourceError;
use ranking::model::RawRecord;
use ranking::pipeline::run_pipeline;

fn raw(id: &str, count: i64, year: i32) -> RawRecord {
    RawRecord { document_id: String::from(id), citation_count: count, publication_year: year }
}

#[test]
fn three_records_one_year_degenerates_to_max() {
    let rows = vec![raw("A", 10, 2020), raw("B", 30, 2020), raw("C", 20, 2020)];
    let out = run_pipeline(&rows).unwrap();
    assert_eq!(out.records_read, 3);
    assert_eq!(out.years_processed, 1);
    assert_eq!(out.percentiles.len(), 100);
    for (p, e) in out.percentiles.iter().enumerate() {
        assert_eq!(e.year, 2020);
        assert_eq!(e.percentile, p as i16);
        assert_eq!(e.citation_count, 30);
    }
}

#[test]
fn strictly_descending_150_records() {
    let mut rows = Vec::new();
    for c in (0..150).rev() {
        rows.push(raw(&format!("doc{}", c), c as i64, 2019));
    }
    let out = run_pipeline(&rows).unwrap();
    assert_eq!(out.records_read, 150);
    assert_eq!(out.years_processed, 1);
    assert_eq!(out.percentiles.len(), 100);
    // bucket = 150 / 100 = 1, so percentile p reports 149 - p
    for (p, e) in out.percentiles.iter().enumerate() {
        assert_eq!(e.year, 2019);
        assert_eq!(e.citation_count, 149 - p as i32);
    }
    assert_eq!(out.percentiles[0].citation_count, 149);
    assert_eq!(out.percentiles[99].citation_count, 50);
}

#[test]
fn two_disjoint_years_give_two_tables() {
    // interleaved years: groups must stay by year, in order of first occurrence
    let rows = vec![
        raw("a", 5, 2018),
        raw("b", 7, 2019),
        raw("c", 9, 2018),
        raw("d", 1, 2019),
        raw("e", 3, 2019),
    ];
    let out = run_pipeline(&rows).unwrap();
    assert_eq!(out.records_read, 5);
    assert_eq!(out.years_processed, 2);
    assert_eq!(out.percentiles.len(), 200);
    for e in &out.percentiles[..100] {
        assert_eq!(e.year, 2018);
        assert_eq!(e.citation_count, 9);
    }
    for e in &out.percentiles[100..] {
        assert_eq!(e.year, 2019);
        assert_eq!(e.citation_count, 7);
    }
}

#[test]
fn negative_count_aborts_with_malformed_row() {
    let rows = vec![raw("A", 4, 2020), raw("B", -1, 2020), raw("C", 2, 2020)];
    match run_pipeline(&rows) {
        Err(SourceError::MalformedRow { row_index }) => assert_eq!(row_index, 1),
        other => panic!("expected a malformed-row failure, got {:?}", other.map(|o| o.records_read)),
    }
}

#[test]
fn oversized_count_aborts_with_malformed_row() {
    let rows = vec![raw("A", 5_000_000_000, 1999)];
    match run_pipeline(&rows) {
        Err(SourceError::MalformedRow { row_index }) => assert_eq!(row_index, 0),
        other => panic!("expected a malformed-row failure, got {:?}", other.map(|o| o.records_read)),
    }
}

#[test]
fn first_bad_row_is_reported() {
    let rows = vec![raw("A", 1, 2020), raw("B", -7, 2020), raw("C", -9, 2020)];
    match run_pipeline(&rows) {
        Err(SourceError::MalformedRow { row_index }) => assert_eq!(row_index, 1),
        _ => panic!("expected a malformed-row failure"),
    }
}

#[test]
fn empty_input_yields_empty_output() {
    let rows: Vec<RawRecord> = Vec::new();
    let out = run_pipeline(&rows).unwrap();
    assert_eq!(out.records_read, 0);
    assert_eq!(out.years_processed, 0);
    assert_eq!(out.percentiles.len(), 0);
}
