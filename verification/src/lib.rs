//! Citation percentile ranking.
//!
//! Computes, for a corpus of publications, the within-year percentile rank of
//! each publication's citation count: records are grouped by publication year,
//! each year's population is sorted by citation count descending, and a
//! 100-bucket percentile table is derived per year (percentile 0 reports the
//! most-cited document's count). The relational store that records come from
//! and that percentile rows go back to is driven by unverified glue around
//! this library; the aggregation and ranking logic here is verified.

pub mod aggregate;
pub mod errmap;
pub mod errors;
pub mod model;
pub mod secrets;
pub mod percentile;
pub mod pipeline;
pub mod sorting;
