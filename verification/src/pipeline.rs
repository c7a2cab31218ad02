//! The pipeline driver: validates the raw rows a record source handed over,
//! drains them into the year aggregator, runs the percentile computer over
//! every population, and reports the combined table together with the counts
//! that operational reporting wants (records read, distinct years processed).
//! The first malformed row aborts the whole run with a `SourceError` — no
//! output is produced, so nothing reaches the result sink.

use vstd::prelude::*;
use vstd::pervasive::unreached;
use crate::aggregate::{
    group_records, lemma_partition_by_year, year_seq, years_of, YearAggregator,
};
use crate::errors::SourceError;
use crate::model::{parsed, valid_count, CitationRecord, Percentile, RawRecord};
use crate::percentile::{compute_percentiles, entry_spec, sorted_counts};

verus! {

/// The validated records that a sequence of raw rows stands for.
pub open spec fn parsed_rows(rows: Seq<RawRecord>) -> Seq<CitationRecord> {
    rows.map_values(|r: RawRecord| parsed(r))
}

/// Whether every raw row carries a well-formed citation count.
pub open spec fn all_valid(rows: Seq<RawRecord>) -> bool {
    forall|i: int| 0 <= i < rows.len() ==> valid_count(#[trigger] rows[i].citation_count)
}

/// What one full run computes and reports.
pub struct PipelineOutput {
    /// 100 entries per distinct year, years in order of first occurrence.
    pub percentiles: Vec<Percentile>,
    /// How many records the source yielded.
    pub records_read: usize,
    /// How many distinct publication years were ranked.
    pub years_processed: usize,
}

/// Runs one aggregation pass over the rows a record source produced.
///
/// Succeeds exactly when every row's citation count is a non-negative 32-bit
/// integer; the first offending row otherwise aborts the run, identified by
/// its index, with no output produced. On success the output holds, for the
/// `g`-th distinct year (in order of first appearance), entries
/// `100 * g .. 100 * g + 100` of that year's percentile table, together with
/// the record and year counts.
pub fn run_pipeline(rows: &Vec<RawRecord>) -> (r: Result<PipelineOutput, SourceError>)
    ensures
        r is Ok <==> all_valid(rows@),
        r is Err ==> (r->Err_0 matches SourceError::MalformedRow { row_index } && row_index
            < rows@.len() && !valid_count(rows@[row_index as int].citation_count) && (forall|j: int|
            0 <= j < row_index ==> valid_count(#[trigger] rows@[j].citation_count))),
        r is Ok ==> ({
            let out = r->Ok_0;
            let years = year_seq(parsed_rows(rows@));
            &&& out.records_read == rows@.len()
            &&& out.years_processed == years.len()
            &&& out.percentiles@.len() == 100 * years.len()
            &&& forall|g: int, p: int|
                0 <= g < years.len() && 0 <= p < 100 ==> out.percentiles@[g * 100 + p]
                    == entry_spec(
                    years[g],
                    sorted_counts(group_records(parsed_rows(rows@), years[g])),
                    p,
                )
        }),
{
    let n: usize = rows.len();
    let mut agg = YearAggregator::new();
    let mut i: usize = 0;
    while i < n
        invariant
            0 <= i <= n,
            n == rows@.len(),
            agg.wf(),
            agg@ == parsed_rows(rows@.subrange(0, i as int)),
            forall|j: int| 0 <= j < i ==> valid_count(#[trigger] rows@[j].citation_count),
        decreases n - i,
    {
        match CitationRecord::parse(&rows[i]) {
            Some(rec) => {
                agg.add(rec);
                proof {
                    assert(parsed_rows(rows@.subrange(0, i + 1)) =~= parsed_rows(
                        rows@.subrange(0, i as int),
                    ).push(parsed(rows@[i as int])));
                }
            },
            None => {
                return Err(SourceError::MalformedRow { row_index: i });
            },
        }
        i = i + 1;
    }
    proof {
        assert(rows@.subrange(0, n as int) =~= rows@);
        assert(agg@ == parsed_rows(rows@));
    }
    let records_read = agg.records_read();
    let pops = agg.populations();
    let years_processed: usize = pops.len();
    proof {
        assert(years_of(pops@).len() == year_seq(agg@).len());
        lemma_partition_by_year(agg@);
        assert forall|g: int| 0 <= g < pops@.len() implies #[trigger] pops@[g].records@.len()
            > 0 by {
            assert(years_of(pops@)[g] == pops@[g].year);
            assert(year_seq(agg@).contains(pops@[g].year));
        }
    }
    match compute_percentiles(pops) {
        Ok(percentiles) => {
            proof {
                assert forall|g: int, p: int|
                    0 <= g < year_seq(parsed_rows(rows@)).len() && 0 <= p < 100 implies
                    percentiles@[g * 100 + p] == entry_spec(
                    year_seq(parsed_rows(rows@))[g],
                    sorted_counts(group_records(parsed_rows(rows@), year_seq(parsed_rows(rows@))[g])),
                    p,
                ) by {
                    assert(years_of(pops@)[g] == pops@[g].year);
                }
            }
            Ok(PipelineOutput { percentiles, records_read, years_processed })
        },
        Err(_) => unreached(),
    }
}

} // verus!
