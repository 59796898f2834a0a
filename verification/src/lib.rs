//! Rank histograms of delimited text.
//!
//! The records of an input are counted by the value of one column ([`aggregate`],
//! over [`source`] and [`table`]). The counts are put in rising order ([`rank`]) and
//! laid out as charts ([`chart`]), under a count axis whose bound lies on a grid of ten
//! steps to the decade ([`scale`], over [`tenths`]), or written out as raw counts
//! ([`raw_counts`]). Settings come as text ([`delimiter`], [`geometry`]); what stops
//! a run is a [`error::HistError`].

pub mod aggregate;
pub mod chart;
pub mod decimal;
pub mod delimiter;
pub mod error;
pub mod geometry;
pub mod order;
pub mod rank;
pub mod raw_counts;
pub mod scale;
pub mod source;
pub mod table;
pub mod tenths;
