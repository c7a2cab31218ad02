//! The percentile computer: given one year's population, produce exactly 100
//! percentile entries. The population's counts are sorted descending; with
//! `n` records and `bucket = n / 100`, percentile `p` reports the count at
//! index `p * bucket` of the sorted order. Percentile 0 therefore reports the
//! most-cited document's count, and a population of fewer than 100 records
//! collapses every entry to the year's maximum — both kept faithfully, as the
//! store's existing consumers expect them.

use vstd::prelude::*;
use vstd::arithmetic::mul::lemma_mul_inequality;
use vstd::relations::sorted_by;
use crate::errors::EmptyPopulationError;
use crate::model::{counts_of, CitationCount, Percentile, YearPopulation};
use crate::sorting::{desc, lemma_sort_desc_ensures, sort_counts_desc, sort_desc};

verus! {

/// The citation counts of a population, in descending order.
pub open spec fn sorted_counts(rs: Seq<CitationCount>) -> Seq<i32> {
    sort_desc(counts_of(rs))
}

/// How many sorted positions one percentile step advances.
pub open spec fn bucket_of(n: nat) -> nat {
    n / 100
}

/// The citation count reported at percentile `p` of a descending count
/// sequence.
pub open spec fn percentile_count(sorted: Seq<i32>, p: int) -> i32 {
    sorted[p * bucket_of(sorted.len())]
}

/// The full percentile entry at `p` for a year whose descending counts are
/// `sorted`.
pub open spec fn entry_spec(year: i32, sorted: Seq<i32>, p: int) -> Percentile {
    Percentile {
        year,
        citation_count: percentile_count(sorted, p),
        percentile: p as i16,
    }
}

/// Sampling indices stay in range: with `n > 0` and `p < 100`, the index
/// `p * (n / 100)` lies inside the sequence.
pub proof fn lemma_offset_in_range(n: int, p: int)
    requires
        n > 0,
        0 <= p < 100,
    ensures
        0 <= p * (n / 100) < n,
        p * (n / 100) + n / 100 <= n,
{
    let b = n / 100;
    assert(100 * b <= n);
    lemma_mul_inequality(p, 99, b);
    assert(p * b >= 0) by {
        lemma_mul_inequality(0, p, b);
    }
    assert((p + 1) * b == p * b + b) by {
        vstd::arithmetic::mul::lemma_mul_is_distributive_add_other_way(b, p, 1);
    }
    lemma_mul_inequality(p + 1, 100, b);
}

/// Builds the 100-entry table over counts already in descending order.
fn table_from_sorted(year: i32, counts: &Vec<i32>) -> (r: Vec<Percentile>)
    requires
        counts@.len() > 0,
        sorted_by(counts@, desc()),
    ensures
        r@.len() == 100,
        forall|p: int| 0 <= p < 100 ==> r@[p] == entry_spec(year, counts@, p),
{
    let n: usize = counts.len();
    let percent: usize = n / 100;
    let mut out: Vec<Percentile> = Vec::new();
    let mut offset: usize = 0;
    let mut p: usize = 0;
    while p < 100
        invariant
            0 <= p <= 100,
            n == counts@.len(),
            n > 0,
            percent == n / 100,
            offset == p * percent,
            out@.len() == p,
            forall|q: int| 0 <= q < p ==> out@[q] == entry_spec(year, counts@, q),
        decreases 100 - p,
    {
        proof {
            lemma_offset_in_range(n as int, p as int);
        }
        let c: i32 = counts[offset];
        out.push(Percentile { year, citation_count: c, percentile: p as i16 });
        proof {
            assert(out@.last() == entry_spec(year, counts@, p as int));
            vstd::arithmetic::mul::lemma_mul_is_distributive_add_other_way(
                percent as int, p as int, 1);
        }
        offset = offset + percent;
        p = p + 1;
    }
    out
}

/// Computes one year's percentile table. Succeeds exactly when the population
/// is non-empty; entry `p` then equals `entry_spec` over the population's
/// descending counts. An empty population is reported, never indexed.
pub fn compute_year_percentiles(pop: &YearPopulation) -> (r: Result<
    Vec<Percentile>,
    EmptyPopulationError,
>)
    ensures
        r is Ok <==> pop.records@.len() > 0,
        r is Err ==> r->Err_0.year == pop.year,
        r is Ok ==> r->Ok_0@.len() == 100,
        r is Ok ==> forall|p: int|
            0 <= p < 100 ==> r->Ok_0@[p] == entry_spec(
                pop.year,
                sorted_counts(pop.records@),
                p,
            ),
{
    let m: usize = pop.records.len();
    if m == 0 {
        return Err(EmptyPopulationError { year: pop.year });
    }
    let mut counts: Vec<i32> = Vec::new();
    let mut idx: usize = 0;
    while idx < m
        invariant
            0 <= idx <= m,
            m == pop.records@.len(),
            counts@ == counts_of(pop.records@.subrange(0, idx as int)),
        decreases m - idx,
    {
        counts.push(pop.records[idx].citation_count);
        proof {
            assert(counts@ =~= counts_of(pop.records@.subrange(0, idx + 1)));
        }
        idx = idx + 1;
    }
    proof {
        assert(pop.records@.subrange(0, m as int) =~= pop.records@);
    }
    sort_counts_desc(&mut counts);
    proof {
        lemma_sort_desc_ensures(counts_of(pop.records@));
    }
    let table = table_from_sorted(pop.year, &counts);
    Ok(table)
}

/// Computes the combined percentile table of every population, in population
/// order: 100 entries per year, population `g`'s entries standing at indices
/// `100 * g .. 100 * g + 100`. Fails with the year of an empty population if
/// one is ever handed in; succeeds exactly when none is empty.
pub fn compute_percentiles(populations: &Vec<YearPopulation>) -> (r: Result<
    Vec<Percentile>,
    EmptyPopulationError,
>)
    ensures
        r is Ok <==> (forall|g: int|
            0 <= g < populations@.len() ==> populations@[g].records@.len() > 0),
        r is Err ==> exists|g: int|
            0 <= g < populations@.len() && populations@[g].records@.len() == 0
                && r->Err_0.year == populations@[g].year,
        r is Ok ==> r->Ok_0@.len() == 100 * populations@.len(),
        r is Ok ==> forall|g: int, p: int|
            0 <= g < populations@.len() && 0 <= p < 100 ==> r->Ok_0@[g * 100 + p] == entry_spec(
                populations@[g].year,
                sorted_counts(populations@[g].records@),
                p,
            ),
{
    let mut out: Vec<Percentile> = Vec::new();
    let mut g: usize = 0;
    let k: usize = populations.len();
    while g < k
        invariant
            0 <= g <= k,
            k == populations@.len(),
            out@.len() == 100 * g,
            forall|g2: int| 0 <= g2 < g ==> populations@[g2].records@.len() > 0,
            forall|g2: int, p2: int|
                0 <= g2 < g && 0 <= p2 < 100 ==> out@[g2 * 100 + p2] == entry_spec(
                    populations@[g2].year,
                    sorted_counts(populations@[g2].records@),
                    p2,
                ),
        decreases k - g,
    {
        match compute_year_percentiles(&populations[g]) {
            Ok(mut seg) => {
                let ghost old_out = out@;
                out.append(&mut seg);
                proof {
                    assert(forall|g2: int, p2: int|
                        0 <= g2 < g && 0 <= p2 < 100 ==> #[trigger] out@[g2 * 100 + p2]
                            == old_out[g2 * 100 + p2]);
                }
            },
            Err(e) => {
                return Err(e);
            },
        }
        g = g + 1;
    }
    Ok(out)
}

/// The table's citation counts are non-increasing as the percentile index
/// grows from 0 to 99, for any non-empty population.
pub proof fn lemma_percentile_counts_non_increasing(rs: Seq<CitationCount>, p: int, q: int)
    requires
        rs.len() > 0,
        0 <= p <= q < 100,
    ensures
        percentile_count(sorted_counts(rs), p) >= percentile_count(sorted_counts(rs), q),
{
    lemma_sort_desc_ensures(counts_of(rs));
    let s = sorted_counts(rs);
    let n = s.len() as int;
    assert(n == rs.len());
    let b = bucket_of(s.len()) as int;
    lemma_offset_in_range(n, p);
    lemma_offset_in_range(n, q);
    lemma_mul_inequality(p, q, b);
    if p * b < q * b {
        assert((desc())(s[p * b], s[q * b]));
    }
}

/// Degenerate case: a population of fewer than 100 records collapses every
/// percentile entry to the same count, the population's maximum.
pub proof fn lemma_small_population_degenerates(rs: Seq<CitationCount>, p: int)
    requires
        0 < rs.len() < 100,
        0 <= p < 100,
    ensures
        percentile_count(sorted_counts(rs), p) == sorted_counts(rs)[0],
        forall|i: int| 0 <= i < rs.len() ==> sorted_counts(rs)[0] >= counts_of(rs)[i],
        exists|i: int| 0 <= i < rs.len() && counts_of(rs)[i] == sorted_counts(rs)[0],
{
    lemma_sort_desc_ensures(counts_of(rs));
    let s = sorted_counts(rs);
    let c = counts_of(rs);
    s.to_multiset_ensures();
    c.to_multiset_ensures();
    assert(bucket_of(s.len()) == 0);
    assert(p * 0 == 0);
    assert forall|i: int| 0 <= i < rs.len() implies s[0] >= c[i] by {
        assert(c.contains(c[i]));
        assert(c.to_multiset().count(c[i]) > 0);
        assert(s.to_multiset().count(c[i]) > 0);
        assert(s.contains(c[i]));
        let j = choose|j: int| 0 <= j < s.len() && s[j] == c[i];
        if j > 0 {
            assert((desc())(s[0], s[j]));
        }
    }
    assert(s.contains(s[0]));
    assert(s.to_multiset().count(s[0]) > 0);
    assert(c.to_multiset().count(s[0]) > 0);
    assert(c.contains(s[0]));
}

/// Idempotence of ranking: counts already in descending order re-sort to
/// themselves, so recomputing a percentile table from its own sorted input
/// yields identical results.
pub proof fn lemma_sort_idempotent(s: Seq<i32>)
    requires
        sorted_by(s, desc()),
    ensures
        sort_desc(s) == s,
{
    lemma_sort_desc_ensures(s);
}

/// A population whose records already stand in descending order of citation
/// count ranks over those counts unchanged: recomputing its percentile table
/// yields identical results.
pub proof fn lemma_rerank_sorted_population(rs: Seq<CitationCount>)
    requires
        sorted_by(counts_of(rs), desc()),
    ensures
        sorted_counts(rs) == counts_of(rs),
{
    lemma_sort_idempotent(counts_of(rs));
}

/// Re-sorting any sorted output changes nothing.
pub proof fn lemma_resort_identical(s: Seq<i32>)
    ensures
        sort_desc(sort_desc(s)) == sort_desc(s),
{
    lemma_sort_desc_ensures(s);
    lemma_sort_idempotent(sort_desc(s));
}

} // verus!
