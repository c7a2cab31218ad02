use ranking::aggregate::YearAggregator;
use ranking::model::CitationRecord;

fn rec(id: &str, count: i32, year: i32) -> CitationRecord {
    CitationRecord {
        document_id: String::from(id),
        citation_count: count,
        publication_year: year,
    }
}

#[test]
fn groups_are_one_per_distinct_year_with_exact_members() {
    let mut agg = YearAggregator::new();
    agg.add(rec("a", 1, 2018));
    agg.add(rec("b", 2, 2019));
    agg.add(rec("c", 3, 2018));
    agg.add(rec("d", 4, 2020));
    agg.add(rec("e", 5, 2019));
    assert_eq!(agg.records_read(), 5);
    let pops = agg.populations();
    assert_eq!(pops.len(), 3);
    assert_eq!(pops[0].year, 2018);
    assert_eq!(pops[1].year, 2019);
    assert_eq!(pops[2].year, 2020);
    let ids: Vec<Vec<&str>> = pops
        .iter()
        .map(|p| p.records.iter().map(|r| r.id.as_str()).collect())
        .collect();
    assert_eq!(ids[0], vec!["a", "c"]);
    assert_eq!(ids[1], vec!["b", "e"]);
    assert_eq!(ids[2], vec!["d"]);
    let total: usize = pops.iter().map(|p| p.records.len()).sum();
    assert_eq!(total, 5);
}

#[test]
fn duplicate_documents_are_kept() {
    let mut agg = YearAggregator::new();
    agg.add(rec("same", 7, 2000));
    agg.add(rec("same", 7, 2000));
    let pops = agg.populations();
    assert_eq!(pops.len(), 1);
    assert_eq!(pops[0].records.len(), 2);
    assert_eq!(pops[0].records[0].citation_count, 7);
    assert_eq!(pops[0].records[1].citation_count, 7);
}

#[test]
fn no_records_means_no_populations() {
    let agg = YearAggregator::new();
    assert_eq!(agg.records_read(), 0);
    assert_eq!(agg.populations().len(), 0);
}
