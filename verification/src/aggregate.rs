//! The year aggregator: partitions the stream of citation records into one
//! population per distinct publication year, keeping every record (no loss,
//! no deduplication) and creating a population on a year's first occurrence.
//! A year with no records never appears; populations are therefore never
//! empty.

use vstd::prelude::*;
use crate::model::{to_count, CitationCount, CitationRecord, YearPopulation};

verus! {

/// Selects the records of one publication year.
pub open spec fn has_year(y: i32) -> spec_fn(CitationRecord) -> bool {
    |r: CitationRecord| r.publication_year == y
}

/// Strips records down to what a population holds.
pub open spec fn to_count_fn() -> spec_fn(CitationRecord) -> CitationCount {
    |r: CitationRecord| to_count(r)
}

/// The distinct publication years of a record sequence, in order of first
/// occurrence.
pub open spec fn year_seq(rows: Seq<CitationRecord>) -> Seq<i32>
    decreases rows.len(),
{
    if rows.len() == 0 {
        Seq::empty()
    } else {
        let prefix = year_seq(rows.drop_last());
        if prefix.contains(rows.last().publication_year) {
            prefix
        } else {
            prefix.push(rows.last().publication_year)
        }
    }
}

/// The population that year `y` receives from `rows`: exactly the records
/// whose publication year is `y`, in stream order.
pub open spec fn group_records(rows: Seq<CitationRecord>, y: i32) -> Seq<CitationCount> {
    rows.filter(has_year(y)).map_values(to_count_fn())
}

/// The years of a population sequence.
pub open spec fn years_of(ps: Seq<YearPopulation>) -> Seq<i32> {
    ps.map_values(|p: YearPopulation| p.year)
}

/// A year stands among the distinct years exactly when some record carries it.
pub proof fn lemma_year_seq_membership(rows: Seq<CitationRecord>, y: i32)
    ensures
        year_seq(rows).contains(y) <==> exists|i: int|
            0 <= i < rows.len() && rows[i].publication_year == y,
    decreases rows.len(),
{
    if rows.len() > 0 {
        let prefix = rows.drop_last();
        let ys = year_seq(rows);
        let ysp = year_seq(prefix);
        lemma_year_seq_membership(prefix, y);
        if ys.contains(y) {
            if ysp.contains(y) {
                let i = choose|i: int| 0 <= i < prefix.len() && prefix[i].publication_year == y;
                assert(rows[i].publication_year == y);
            } else {
                let j = choose|j: int| 0 <= j < ys.len() && ys[j] == y;
                if j < ysp.len() {
                    assert(ysp[j] == y);
                    assert(ysp.contains(y));
                }
                assert(rows[rows.len() - 1].publication_year == y);
            }
        }
        if exists|i: int| 0 <= i < rows.len() && rows[i].publication_year == y {
            let i = choose|i: int| 0 <= i < rows.len() && rows[i].publication_year == y;
            if i == rows.len() - 1 {
                if !ysp.contains(y) {
                    assert(ys[ys.len() - 1] == y);
                }
            } else {
                assert(prefix[i].publication_year == y);
                assert(ysp.contains(y));
                let j = choose|j: int| 0 <= j < ysp.len() && ysp[j] == y;
                assert(ys[j] == y);
            }
            assert(ys.contains(y));
        }
    }
}

/// The distinct years hold no duplicates.
pub proof fn lemma_year_seq_distinct(rows: Seq<CitationRecord>)
    ensures
        forall|i: int, j: int|
            0 <= i < j < year_seq(rows).len() ==> year_seq(rows)[i] != year_seq(rows)[j],
    decreases rows.len(),
{
    if rows.len() > 0 {
        lemma_year_seq_distinct(rows.drop_last());
        let prefix = year_seq(rows.drop_last());
        let ys = year_seq(rows);
        if !prefix.contains(rows.last().publication_year) {
            assert forall|i: int, j: int| 0 <= i < j < ys.len() implies ys[i] != ys[j] by {
                if j == ys.len() - 1 {
                    assert(prefix.contains(prefix[i]));
                }
            }
        }
    }
}

/// Appending one record extends its own year's group by that record and
/// leaves every other group unchanged.
pub proof fn lemma_group_push(rows: Seq<CitationRecord>, r: CitationRecord, y: i32)
    ensures
        group_records(rows.push(r), y) == if r.publication_year == y {
            group_records(rows, y).push(to_count(r))
        } else {
            group_records(rows, y)
        },
{
    rows.lemma_filter_push(r, has_year(y));
    if r.publication_year == y {
        assert(rows.filter(has_year(y)).push(r).map_values(to_count_fn()) =~= rows.filter(
            has_year(y),
        ).map_values(to_count_fn()).push(to_count(r)));
    }
}

/// A year outside the distinct years has an empty group; one inside has a
/// non-empty group. Together with `lemma_year_seq_distinct` and the group
/// definition this is the partition property of aggregation: with `k`
/// distinct years there are exactly `k` groups, each holding exactly the
/// records whose publication year matches its key, every record standing in
/// its year's group and in no other.
pub proof fn lemma_partition_by_year(rows: Seq<CitationRecord>)
    ensures
        forall|i: int, j: int|
            0 <= i < j < year_seq(rows).len() ==> year_seq(rows)[i] != year_seq(rows)[j],
        forall|i: int|
            0 <= i < rows.len() ==> year_seq(rows).contains(#[trigger] rows[i].publication_year),
        forall|y: i32|
            #[trigger] year_seq(rows).contains(y) ==> group_records(rows, y).len() > 0,
        forall|y: i32| !year_seq(rows).contains(y) ==> #[trigger] group_records(rows, y).len() == 0,
{
    lemma_year_seq_distinct(rows);
    assert forall|i: int|
        0 <= i < rows.len() implies year_seq(rows).contains(
        #[trigger] rows[i].publication_year,
    ) by {
        lemma_year_seq_membership(rows, rows[i].publication_year);
    }
    assert forall|y: i32| #[trigger]
        year_seq(rows).contains(y) implies group_records(rows, y).len() > 0 by {
        lemma_year_seq_membership(rows, y);
        let i = choose|i: int| 0 <= i < rows.len() && rows[i].publication_year == y;
        rows.lemma_filter_contains(has_year(y), i);
        assert(rows.filter(has_year(y)).contains(rows[i]));
    }
    assert forall|y: i32|
        !year_seq(rows).contains(y) implies #[trigger] group_records(rows, y).len() == 0 by {
        lemma_year_seq_membership(rows, y);
        assert(rows.all(|x: CitationRecord| !(has_year(y))(x)));
        rows.lemma_all_neg_filter_empty(has_year(y));
    }
}

/// The total size of the groups that a key sequence selects from `rows`.
pub open spec fn total_group_size(rows: Seq<CitationRecord>, years: Seq<i32>) -> int
    decreases years.len(),
{
    if years.len() == 0 {
        0
    } else {
        total_group_size(rows, years.drop_last()) + group_records(rows, years.last()).len()
    }
}

/// Appending one record grows the total group size over distinct keys by one
/// when its year is among them, and not at all otherwise.
proof fn lemma_total_group_size_push(rows: Seq<CitationRecord>, r: CitationRecord, years: Seq<i32>)
    requires
        forall|i: int, j: int| 0 <= i < j < years.len() ==> years[i] != years[j],
    ensures
        total_group_size(rows.push(r), years) == total_group_size(rows, years) + if years.contains(
            r.publication_year,
        ) {
            1int
        } else {
            0int
        },
    decreases years.len(),
{
    let ry = r.publication_year;
    if years.len() > 0 {
        let ys0 = years.drop_last();
        let y = years.last();
        lemma_total_group_size_push(rows, r, ys0);
        lemma_group_push(rows, r, y);
        if ys0.contains(y) {
            let j = choose|j: int| 0 <= j < ys0.len() && ys0[j] == y;
            assert(years[j] == y && years[years.len() - 1] == y);
            assert(false);
        }
        if years.contains(ry) {
            let j = choose|j: int| 0 <= j < years.len() && years[j] == ry;
            if j < years.len() - 1 {
                assert(ys0[j] == ry);
                assert(ys0.contains(ry));
                assert(y != ry);
            }
        }
        if ys0.contains(ry) {
            let j = choose|j: int| 0 <= j < ys0.len() && ys0[j] == ry;
            assert(years[j] == ry);
            assert(years.contains(ry));
        }
        if ry == y {
            assert(!ys0.contains(ry));
            assert(years.contains(ry)) by {
                assert(years[years.len() - 1] == ry);
            }
        }
    }
}

/// No record is lost and none is duplicated: over the distinct years, the
/// group sizes sum to exactly the number of records.
pub proof fn lemma_no_record_lost(rows: Seq<CitationRecord>)
    ensures
        total_group_size(rows, year_seq(rows)) == rows.len(),
    decreases rows.len(),
{
    if rows.len() > 0 {
        let h = rows.drop_last();
        let r = rows.last();
        let ry = r.publication_year;
        lemma_no_record_lost(h);
        lemma_year_seq_distinct(h);
        assert(h.push(r) =~= rows);
        let ys = year_seq(h);
        lemma_total_group_size_push(h, r, ys);
        if ys.contains(ry) {
            assert(year_seq(rows) == ys);
        } else {
            assert(year_seq(rows) == ys.push(ry));
            assert(year_seq(rows).drop_last() =~= ys);
            assert(year_seq(rows).last() == ry);
            lemma_group_push(h, r, ry);
            lemma_partition_by_year(h);
            assert(group_records(h, ry).len() == 0);
            assert(group_records(rows, ry).len() == 1);
            assert(total_group_size(rows, year_seq(rows)) == total_group_size(rows, ys)
                + group_records(rows, ry).len());
        }
    }
}

/// Groups citation records by publication year as they stream in. The
/// abstract state is the sequence of records accepted so far; the populations
/// held are exactly the per-year groups of that sequence, one per distinct
/// year in order of first occurrence.
pub struct YearAggregator {
    populations: Vec<YearPopulation>,
    records_read: usize,
    history: Ghost<Seq<CitationRecord>>,
}

impl View for YearAggregator {
    type V = Seq<CitationRecord>;

    closed spec fn view(&self) -> Seq<CitationRecord> {
        self.history@
    }
}

impl YearAggregator {
    /// The populations mirror the record history, group by group.
    pub closed spec fn wf(&self) -> bool {
        &&& self.records_read == self.history@.len()
        &&& years_of(self.populations@) == year_seq(self.history@)
        &&& forall|g: int|
            0 <= g < self.populations@.len() ==> #[trigger] self.populations@[g].records@
                == group_records(self.history@, self.populations@[g].year)
    }

    /// An aggregator that has seen no records and holds no populations.
    pub fn new() -> (a: YearAggregator)
        ensures
            a.wf(),
            a@ == Seq::<CitationRecord>::empty(),
    {
        let a = YearAggregator {
            populations: Vec::new(),
            records_read: 0,
            history: Ghost(Seq::empty()),
        };
        proof {
            assert(years_of(a.populations@) =~= year_seq(a.history@));
        }
        a
    }

    /// Accepts one record, appending it to its year's population and creating
    /// that population if the year is new.
    pub fn add(&mut self, rec: CitationRecord)
        requires
            old(self).wf(),
            old(self)@.len() < usize::MAX,
        ensures
            final(self).wf(),
            final(self)@ == old(self)@.push(rec),
    {
        let ghost h = self.history@;
        let y = rec.publication_year;
        let cc = CitationCount { id: rec.document_id, citation_count: rec.citation_count };
        proof {
            assert(cc == to_count(rec));
        }
        let k: usize = self.populations.len();
        let mut g: usize = 0;
        while g < k && self.populations[g].year != y
            invariant
                0 <= g <= k,
                k == self.populations@.len(),
                forall|g2: int| 0 <= g2 < g ==> self.populations@[g2].year != y,
            decreases k - g,
        {
            g = g + 1;
        }
        let ghost old_pops = self.populations@;
        if g < k {
            let mut pop = self.populations.remove(g);
            pop.records.push(cc);
            self.populations.insert(g, pop);
            proof {
                assert(self.populations@ =~= old_pops.update(g as int, pop));
            }
        } else {
            let mut records: Vec<CitationCount> = Vec::new();
            records.push(cc);
            self.populations.push(YearPopulation { year: y, records });
        }
        self.records_read = self.records_read + 1;
        proof {
            self.history@ = h.push(rec);
        }
        proof {
            let h2 = h.push(rec);
            assert(h2.drop_last() =~= h);
            assert(h2.last() == rec);
            // how each group changes under the appended record
            assert forall|y2: i32| true implies #[trigger] group_records(h2, y2)
                == (if rec.publication_year == y2 {
                    group_records(h, y2).push(to_count(rec))
                } else {
                    group_records(h, y2)
                }) by {
                lemma_group_push(h, rec, y2);
            }
            if g < k {
                // existing year: years unchanged, one group grew
                lemma_year_seq_distinct(h);
                assert(years_of(old_pops)[g as int] == y);
                assert(year_seq(h).contains(y));
                assert(year_seq(h2) == year_seq(h));
                assert(years_of(self.populations@) =~= years_of(old_pops));
                assert forall|g2: int|
                    0 <= g2 < self.populations@.len() implies #[trigger] self.populations@[g2].records@
                    == group_records(h2, self.populations@[g2].year) by {
                    if g2 == g {
                        assert(self.populations@[g2].records@ == old_pops[g as int].records@.push(
                            to_count(rec),
                        ));
                    } else {
                        assert(self.populations@[g2] == old_pops[g2]);
                        assert(years_of(old_pops)[g2] == old_pops[g2].year);
                        assert(old_pops[g2].year != y);
                    }
                }
            } else {
                // new year: y is not among the old populations' years
                assert forall|i: int| 0 <= i < year_seq(h).len() implies year_seq(h)[i] != y by {
                    assert(years_of(old_pops)[i] == old_pops[i].year);
                }
                assert(!year_seq(h).contains(y));
                assert(year_seq(h2) == year_seq(h).push(y));
                assert(years_of(self.populations@) =~= years_of(old_pops).push(y));
                // the new population holds exactly the appended record
                lemma_partition_by_year(h);
                assert(group_records(h, y).len() == 0);
                assert(self.populations@.last().records@ =~= group_records(h, y).push(
                    to_count(rec),
                ));
                assert forall|g2: int|
                    0 <= g2 < self.populations@.len() implies #[trigger] self.populations@[g2].records@
                    == group_records(h2, self.populations@[g2].year) by {
                    if g2 < old_pops.len() {
                        assert(self.populations@[g2] == old_pops[g2]);
                        assert(old_pops[g2].year != y);
                    } else {
                        assert(self.populations@[g2].year == y);
                        assert(self.populations@[g2].records@ == group_records(h, y).push(
                            to_count(rec),
                        ));
                    }
                }
            }
        }
    }

    /// How many records have been accepted, for operational reporting.
    pub fn records_read(&self) -> (n: usize)
        requires
            self.wf(),
        ensures
            n == self@.len(),
    {
        self.records_read
    }

    /// The per-year populations built so far: one per distinct year of the
    /// accepted records, in order of first occurrence, each holding exactly
    /// the records of its year.
    pub fn populations(&self) -> (ps: &Vec<YearPopulation>)
        requires
            self.wf(),
        ensures
            years_of(ps@) == year_seq(self@),
            forall|g: int|
                0 <= g < ps@.len() ==> #[trigger] ps@[g].records@ == group_records(
                    self@,
                    ps@[g].year,
                ),
    {
        &self.populations
    }
}

} // verus!
