use ranking::model::{CitationCount, YearPopulation};
use ranking::percentile::{compute_percentiles, compute_year_percentiles};

fn cc(id: &str, count: i32) -> CitationCount {
    CitationCount { id: String::from(id), citation_count: count }
}

fn population(year: i32, counts: &[i32]) -> YearPopulation {
    let records = counts.iter().enumerate().map(|(i, &c)| cc(&format!("d{}", i), c)).collect();
    YearPopulation { year, records }
}

#[test]
fn large_population_exact_table() {
    // 230 records with counts 0..=229 in ascending order; bucket = 2, so
    // percentile p reports the count at index 2 * p of the descending order
    let counts: Vec<i32> = (0..230).collect();
    let pop = population(2001, &counts);
    let table = compute_year_percentiles(&pop).unwrap();
    assert_eq!(table.len(), 100);
    for (p, e) in table.iter().enumerate() {
        assert_eq!(e.year, 2001);
        assert_eq!(e.percentile, p as i16);
        assert_eq!(e.citation_count, 229 - 2 * p as i32);
    }
}

#[test]
fn percentile_fields_cover_0_to_99_and_counts_never_increase() {
    let counts: Vec<i32> = (0..137).map(|i| (i * 7919) % 1000).collect();
    let pop = population(1984, &counts);
    let table = compute_year_percentiles(&pop).unwrap();
    assert_eq!(table.len(), 100);
    for (p, e) in table.iter().enumerate() {
        assert_eq!(e.percentile, p as i16);
        if p > 0 {
            assert!(table[p - 1].citation_count >= e.citation_count);
        }
    }
}

#[test]
fn small_population_collapses_to_maximum() {
    let counts: Vec<i32> = (0..99).collect();
    let pop = population(2010, &counts);
    let table = compute_year_percentiles(&pop).unwrap();
    assert_eq!(table.len(), 100);
    for e in &table {
        assert_eq!(e.citation_count, 98);
    }
}

#[test]
fn single_record_population() {
    let pop = population(2022, &[42]);
    let table = compute_year_percentiles(&pop).unwrap();
    assert_eq!(table.len(), 100);
    for e in &table {
        assert_eq!(e.citation_count, 42);
        assert_eq!(e.year, 2022);
    }
}

#[test]
fn exactly_100_records_uses_bucket_one() {
    let counts: Vec<i32> = (0..100).collect();
    let pop = population(2005, &counts);
    let table = compute_year_percentiles(&pop).unwrap();
    for (p, e) in table.iter().enumerate() {
        assert_eq!(e.citation_count, 99 - p as i32);
    }
}

#[test]
fn ties_keep_value_correctness() {
    // plateaus: equal counts may sit in any order, values must still match
    let counts = vec![5, 5, 5, 1, 1, 9];
    let pop = population(1999, &counts);
    let table = compute_year_percentiles(&pop).unwrap();
    for e in &table {
        assert_eq!(e.citation_count, 9);
    }
}

#[test]
fn empty_population_is_reported_loudly() {
    let pop = YearPopulation { year: 2021, records: Vec::new() };
    let err = compute_year_percentiles(&pop).unwrap_err();
    assert_eq!(err.year, 2021);
}

#[test]
fn combined_table_walks_populations_in_order() {
    let pops = vec![population(2018, &[3, 1, 2]), population(2019, &[8, 9])];
    let all = compute_percentiles(&pops).unwrap();
    assert_eq!(all.len(), 200);
    assert!(all[..100].iter().all(|e| e.year == 2018 && e.citation_count == 3));
    assert!(all[100..].iter().all(|e| e.year == 2019 && e.citation_count == 9));
}

#[test]
fn combined_table_rejects_an_empty_population() {
    let pops = vec![population(2018, &[3]), YearPopulation { year: 2019, records: Vec::new() }];
    let err = compute_percentiles(&pops).unwrap_err();
    assert_eq!(err.year, 2019);
}
