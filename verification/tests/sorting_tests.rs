use ranking::model::{CitationCount, YearPopulation};
use ranking::percentile::compute_year_percentiles;
use ranking::sorting::sort_counts_desc;

#[test]
fn sorts_descending() {
    let mut v = vec![3, 9, 1, 9, 0, 5];
    sort_counts_desc(&mut v);
    assert_eq!(v, vec![9, 9, 5, 3, 1, 0]);
}

#[test]
fn sorting_twice_changes_nothing() {
    let mut v = vec![4, 8, 2, 2, 6, 100, -3];
    sort_counts_desc(&mut v);
    let once = v.clone();
    sort_counts_desc(&mut v);
    assert_eq!(v, once);
}

#[test]
fn already_sorted_input_is_kept() {
    let mut v = vec![10, 7, 7, 1, 0, -2];
    let orig = v.clone();
    sort_counts_desc(&mut v);
    assert_eq!(v, orig);
}

#[test]
fn empty_and_singleton_are_fixed_points() {
    let mut e: Vec<i32> = Vec::new();
    sort_counts_desc(&mut e);
    assert!(e.is_empty());
    let mut s = vec![11];
    sort_counts_desc(&mut s);
    assert_eq!(s, vec![11]);
}

#[test]
fn presorted_population_recomputes_identically() {
    // ranking is idempotent: an unsorted population and its descending
    // reordering yield the same percentile table
    let unsorted: Vec<i32> = vec![10, 30, 20, 30, 5];
    let mut sorted = unsorted.clone();
    sort_counts_desc(&mut sorted);
    let build = |counts: &Vec<i32>| YearPopulation {
        year: 2017,
        records: counts
            .iter()
            .enumerate()
            .map(|(i, &c)| CitationCount { id: format!("d{}", i), citation_count: c })
            .collect(),
    };
    let t1 = compute_year_percentiles(&build(&unsorted)).unwrap();
    let t2 = compute_year_percentiles(&build(&sorted)).unwrap();
    assert_eq!(t1, t2);
}
