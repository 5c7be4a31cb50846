//! Verified core of a PTP (Precision Time Protocol) log statistics tool.
//!
//! The library parses `ptp4l` daemon log lines into clock-offset and
//! path-delay samples, summarizes each sample series with exact integer
//! statistics, and computes the deterministic parameters (file path, title,
//! axis ranges) of the line chart drawn for each series. File I/O, float
//! formatting and the actual image rendering live outside the library.

pub mod batch;
pub mod chart;
pub mod extract;
pub mod stats;
