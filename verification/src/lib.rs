//! A verified bridge layer between a dynamically typed host runtime and a
//! columnar data engine.
//!
//! The crate models the boundary itself: typed scalar values and their
//! conversion from dynamic host values, named nullable series, data frames of
//! equal-length columns, deferred query plans, a reference-counted handle
//! registry, and the uniform error taxonomy that every operation reports
//! through.  Every operation is specified against a mathematical view of the
//! data and proved to meet that specification.

pub mod convert;
pub mod csv;
pub mod error;
pub mod frame;
pub mod frame_dedup;
pub mod frame_group;
pub mod frame_join;
pub mod frame_melt;
pub mod lazy;
pub mod numtext;
pub mod registry;
pub mod series;
pub mod series_arith;
pub mod series_cum;
pub mod series_fill;
pub mod series_sort;
pub mod series_stats;
pub mod series_window;
pub mod value;
