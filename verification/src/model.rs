//! Data model of the ranking pipeline: raw rows as the record source hands
//! them over, validated citation records, per-year populations, and the
//! percentile entries that the pipeline produces.

use vstd::prelude::*;

verus! {

/// A row as read from the backing store, before validation: the citation
/// count arrives as a wide integer and may be out of range.
pub struct RawRecord {
    pub document_id: String,
    pub citation_count: i64,
    pub publication_year: i32,
}

/// A validated citation record: the citation count is a non-negative `i32`.
pub struct CitationRecord {
    pub document_id: String,
    pub citation_count: i32,
    pub publication_year: i32,
}

/// One publication's citation count, as held inside a per-year population
/// (the year lives on the population, not on each member).
pub struct CitationCount {
    pub id: String,
    pub citation_count: i32,
}

/// All citation records of one publication year: the ranking universe for
/// that year's percentiles.
pub struct YearPopulation {
    pub year: i32,
    pub records: Vec<CitationCount>,
}

/// One row of the output table: the citation count standing at a percentile
/// boundary (0..=99) of one year's population.
#[derive(Clone, Copy, PartialEq, Eq, Structural, Debug, Default)]
pub struct Percentile {
    pub year: i32,
    pub citation_count: i32,
    pub percentile: i16,
}

/// A raw citation count is acceptable exactly when it is a non-negative
/// integer that fits the store's 32-bit column.
pub open spec fn valid_count(c: i64) -> bool {
    0 <= c <= i32::MAX
}

/// The validated record that a raw row stands for.
pub open spec fn parsed(r: RawRecord) -> CitationRecord {
    CitationRecord {
        document_id: r.document_id,
        citation_count: r.citation_count as i32,
        publication_year: r.publication_year,
    }
}

/// What a record contributes to its year's population.
pub open spec fn to_count(r: CitationRecord) -> CitationCount {
    CitationCount { id: r.document_id, citation_count: r.citation_count }
}

/// The citation counts of a population's records, in population order.
pub open spec fn counts_of(rs: Seq<CitationCount>) -> Seq<i32> {
    rs.map_values(|r: CitationCount| r.citation_count)
}

impl CitationRecord {
    /// Validates one raw row. Succeeds exactly when the citation count is a
    /// non-negative integer in 32-bit range; the record then carries the
    /// row's fields unchanged.
    pub fn parse(raw: &RawRecord) -> (r: Option<CitationRecord>)
        ensures
            r is Some <==> valid_count(raw.citation_count),
            r is Some ==> r->0 == parsed(*raw),
    {
        if 0 <= raw.citation_count && raw.citation_count <= i32::MAX as i64 {
            Some(CitationRecord {
                document_id: raw.document_id.clone(),
                citation_count: raw.citation_count as i32,
                publication_year: raw.publication_year,
            })
        } else {
            None
        }
    }
}

} // verus!
