//! Per-file processing: what happens to one machine's log, and to a
//! whole batch of machines.
//!
//! A machine's file is either unreadable — reported as an open error —
//! or a sequence of lines. The lines run through the extractor; a file
//! with no matching line yields a "no data" report, any other file
//! yields its two sample series with their summary statistics. Failures
//! stay contained per machine: the report of one machine depends on
//! that machine's input alone, and a batch never aborts.

use crate::extract::all_fit;
use crate::extract::extract;
use crate::extract::is_extraction_of;
use crate::extract::records;
use crate::stats::stats_match;
use crate::stats::summarize;
use crate::stats::SummaryStats;
use vstd::prelude::*;

verus! {

/// What the caller obtained for one machine: its lines, or nothing.
pub enum MachineInput {
    /// The machine's log file could not be opened or read.
    Unreadable,
    /// The lines of the machine's log file.
    Lines(Vec<Vec<u8>>),
}

/// The outcome of processing one machine.
pub enum MachineReport {
    /// The file could not be read; the machine is reported and the
    /// batch goes on.
    OpenError,
    /// The file held no matching line: no statistics, no plot.
    NoData,
    /// A matching line held a value outside the 64-bit range.
    ValueOutOfRange,
    /// The file's extracted series and their summary statistics.
    Data {
        /// The `master offset` series, in line order.
        offsets: Vec<i64>,
        /// The `path delay` series, in line order.
        delays: Vec<i64>,
        /// Summary of the offset series.
        offset_stats: SummaryStats,
        /// Summary of the delay series.
        delay_stats: SummaryStats,
    },
}

/// True if `r` is the report that input `inp` must produce.
pub open spec fn report_matches(inp: MachineInput, r: MachineReport) -> bool {
    match inp {
        MachineInput::Unreadable => r is OpenError,
        MachineInput::Lines(ls) => {
            let lv = ls.deep_view();
            if !all_fit(lv) {
                r is ValueOutOfRange
            } else if records(lv).len() == 0 {
                r is NoData
            } else {
                r matches MachineReport::Data { offsets, delays, offset_stats, delay_stats }
                    && is_extraction_of(offsets@, delays@, lv) && stats_match(
                    offset_stats,
                    offsets@,
                ) && stats_match(delay_stats, delays@)
            }
        },
    }
}

/// Processes one machine: extraction, then — when there is data — the
/// summary statistics of both series.
pub fn machine_report(inp: &MachineInput) -> (r: MachineReport)
    ensures
        report_matches(*inp, r),
{
    match inp {
        MachineInput::Unreadable => MachineReport::OpenError,
        MachineInput::Lines(ls) => {
            match extract(ls) {
                Err(_) => MachineReport::ValueOutOfRange,
                Ok(e) => {
                    proof {
                        let lv = ls.deep_view();
                        assert(e.offsets@.map_values(|x: i64| x as int).len()
                            == e.offsets@.len());
                        assert(crate::extract::offsets_of(lv).len() == records(lv).len());
                    }
                    if e.offsets.len() == 0 {
                        MachineReport::NoData
                    } else {
                        let offset_stats = summarize(&e.offsets);
                        let delay_stats = summarize(&e.delays);
                        MachineReport::Data {
                            offsets: e.offsets,
                            delays: e.delays,
                            offset_stats,
                            delay_stats,
                        }
                    }
                },
            }
        },
    }
}

/// Processes every machine of a batch, in order. Each machine's report
/// depends on its own input alone: one machine's failure never touches
/// the others, and the batch always runs to the end.
pub fn run_batch(inputs: &Vec<MachineInput>) -> (r: Vec<MachineReport>)
    ensures
        r@.len() == inputs@.len(),
        forall|i: int| 0 <= i < inputs@.len() ==> report_matches(inputs@[i], r@[i]),
{
    let mut out: Vec<MachineReport> = Vec::new();
    let mut i: usize = 0;
    while i < inputs.len()
        invariant
            i <= inputs@.len(),
            out@.len() == i,
            forall|k: int| 0 <= k < i ==> report_matches(inputs@[k], out@[k]),
        decreases inputs@.len() - i,
    {
        let rep = machine_report(&inputs[i]);
        out.push(rep);
        i = i + 1;
    }
    out
}

} // verus!
