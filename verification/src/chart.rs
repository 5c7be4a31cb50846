//! Series plotter parameters: everything about a chart that is computed
//! from the data, as opposed to drawn.
//!
//! A chart of a series is rendered on a fixed 640×480 canvas; its file
//! path is `plots/{device}-{metric}.png` lower-cased, its title is
//! `{device} {metric}`, its x axis spans the sample indices
//! `[0, len)` and its y axis spans `[min, max]` of the series itself.
//! Names are handled as ASCII bytes; lower-casing maps the bytes
//! `A`..=`Z` and leaves every other byte unchanged. Rendering an empty
//! series is refused, since its y range would be empty.

use crate::stats::max_of;
use crate::stats::min_of;
use crate::stats::summarize;
use vstd::prelude::*;

verus! {

/// ASCII lower-casing of one byte.
pub open spec fn lower(b: u8) -> u8 {
    if 0x41 <= b && b <= 0x5a {
        (b + 0x20) as u8
    } else {
        b
    }
}

/// ASCII lower-casing of a byte string.
pub open spec fn lower_seq(s: Seq<u8>) -> Seq<u8> {
    s.map_values(|b: u8| lower(b))
}

/// The bytes of `plots/`.
pub open spec fn dir_prefix() -> Seq<u8> {
    seq![0x70u8, 0x6cu8, 0x6fu8, 0x74u8, 0x73u8, 0x2fu8]
}

/// The bytes of `.png`.
pub open spec fn png_suffix() -> Seq<u8> {
    seq![0x2eu8, 0x70u8, 0x6eu8, 0x67u8]
}

/// The chart's file path: `plots/{device}-{metric}.png`, lower-cased.
pub open spec fn path_of(device: Seq<u8>, metric: Seq<u8>) -> Seq<u8> {
    dir_prefix() + lower_seq(device) + seq![0x2du8] + lower_seq(metric) + png_suffix()
}

/// The chart's title: `{device} {metric}`.
pub open spec fn title_of(device: Seq<u8>, metric: Seq<u8>) -> Seq<u8> {
    device + seq![0x20u8] + metric
}

/// Appends the lower-cased bytes of `s` to `out`.
fn push_lower(out: &mut Vec<u8>, s: &Vec<u8>)
    ensures
        final(out)@ == old(out)@ + lower_seq(s@),
{
    let ghost base = out@;
    let mut i: usize = 0;
    while i < s.len()
        invariant
            i <= s@.len(),
            out@ == base + lower_seq(s@).take(i as int),
        decreases s@.len() - i,
    {
        let b = s[i];
        let lb: u8 = if 0x41 <= b && b <= 0x5a {
            b + 0x20
        } else {
            b
        };
        out.push(lb);
        proof {
            assert(lower_seq(s@).take(i + 1) =~= lower_seq(s@).take(i as int).push(
                lower(s@[i as int]),
            ));
            assert(out@ =~= base + lower_seq(s@).take(i + 1));
        }
        i = i + 1;
    }
    proof {
        assert(lower_seq(s@).take(s@.len() as int) =~= lower_seq(s@));
    }
}

/// Builds the chart's file path for a device and metric name:
/// `plots/{device}-{metric}.png`, lower-cased.
pub fn plot_path(device: &Vec<u8>, metric: &Vec<u8>) -> (r: Vec<u8>)
    ensures
        r@ == path_of(device@, metric@),
{
    let mut out: Vec<u8> = Vec::new();
    out.push(0x70);
    out.push(0x6c);
    out.push(0x6f);
    out.push(0x74);
    out.push(0x73);
    out.push(0x2f);
    proof {
        assert(out@ =~= dir_prefix());
    }
    push_lower(&mut out, device);
    out.push(0x2d);
    push_lower(&mut out, metric);
    out.push(0x2e);
    out.push(0x70);
    out.push(0x6e);
    out.push(0x67);
    proof {
        assert(out@ =~= path_of(device@, metric@));
    }
    out
}

/// Builds the chart's title for a device and metric name:
/// `{device} {metric}`.
pub fn chart_title(device: &Vec<u8>, metric: &Vec<u8>) -> (r: Vec<u8>)
    ensures
        r@ == title_of(device@, metric@),
{
    let mut out: Vec<u8> = Vec::new();
    let mut i: usize = 0;
    while i < device.len()
        invariant
            i <= device@.len(),
            out@ == device@.take(i as int),
        decreases device@.len() - i,
    {
        out.push(device[i]);
        proof {
            assert(device@.take(i + 1) =~= device@.take(i as int).push(device@[i as int]));
        }
        i = i + 1;
    }
    proof {
        assert(device@.take(device@.len() as int) =~= device@);
    }
    out.push(0x20);
    let mut j: usize = 0;
    while j < metric.len()
        invariant
            j <= metric@.len(),
            out@ == device@ + seq![0x20u8] + metric@.take(j as int),
        decreases metric@.len() - j,
    {
        out.push(metric[j]);
        proof {
            assert(metric@.take(j + 1) =~= metric@.take(j as int).push(metric@[j as int]));
            assert(out@ =~= device@ + seq![0x20u8] + metric@.take(j + 1));
        }
        j = j + 1;
    }
    proof {
        assert(out@ =~= device@ + seq![0x20u8] + metric@.take(metric@.len() as int));
        assert(metric@.take(metric@.len() as int) =~= metric@);
        assert(out@ =~= title_of(device@, metric@));
    }
    out
}

/// The computed parameters of one chart: where it is written and what
/// the drawing commands depend on.
pub struct ChartSpec {
    /// Output file path, `plots/{device}-{metric}.png` lower-cased.
    pub path: Vec<u8>,
    /// Chart caption, `{device} {metric}`.
    pub title: Vec<u8>,
    /// Canvas width in pixels.
    pub width: u32,
    /// Canvas height in pixels.
    pub height: u32,
    /// Exclusive upper end of the x axis: the number of samples.
    pub x_max: usize,
    /// Lower end of the y axis: the least sample.
    pub y_min: i64,
    /// Upper end of the y axis: the greatest sample.
    pub y_max: i64,
}

/// Why a chart cannot be produced from the data alone. I/O failures
/// while writing the image are the renderer's own.
#[derive(PartialEq, Eq, Structural, Clone, Copy, Debug)]
pub enum RenderError {
    /// An empty series has an empty y range and cannot be plotted.
    EmptySeries,
}

/// True if `c` holds exactly the chart parameters of `series` under the
/// given device and metric names.
pub open spec fn chart_matches(
    c: ChartSpec,
    series: Seq<i64>,
    device: Seq<u8>,
    metric: Seq<u8>,
) -> bool {
    c.path@ == path_of(device, metric) && c.title@ == title_of(device, metric) && c.width
        == 640 && c.height == 480 && c.x_max == series.len() && c.y_min == min_of(series)
        && c.y_max == max_of(series)
}

/// Computes the chart parameters of a series: the deterministic file
/// path and title, the fixed canvas, and the axis ranges. Fails exactly
/// on an empty series.
pub fn chart_spec(series: &Vec<i64>, device: &Vec<u8>, metric: &Vec<u8>) -> (r: Result<
    ChartSpec,
    RenderError,
>)
    ensures
        match r {
            Ok(c) => series@.len() > 0 && chart_matches(c, series@, device@, metric@),
            Err(e) => e == RenderError::EmptySeries && series@.len() == 0,
        },
{
    if series.len() == 0 {
        return Err(RenderError::EmptySeries);
    }
    let st = summarize(series);
    Ok(
        ChartSpec {
            path: plot_path(device, metric),
            title: chart_title(device, metric),
            width: 640,
            height: 480,
            x_max: series.len(),
            y_min: st.min,
            y_max: st.max,
        },
    )
}

/// The metric name `Offset`.
pub open spec fn offset_label() -> Seq<u8> {
    seq![0x4fu8, 0x66u8, 0x66u8, 0x73u8, 0x65u8, 0x74u8]
}

/// The metric name `Delay`.
pub open spec fn delay_label() -> Seq<u8> {
    seq![0x44u8, 0x65u8, 0x6cu8, 0x61u8, 0x79u8]
}

/// The bytes of the metric name `Offset`.
fn offset_label_exec() -> (r: Vec<u8>)
    ensures
        r@ == offset_label(),
{
    let mut v: Vec<u8> = Vec::new();
    v.push(0x4f);
    v.push(0x66);
    v.push(0x66);
    v.push(0x73);
    v.push(0x65);
    v.push(0x74);
    proof {
        assert(v@ =~= offset_label());
    }
    v
}

/// The bytes of the metric name `Delay`.
fn delay_label_exec() -> (r: Vec<u8>)
    ensures
        r@ == delay_label(),
{
    let mut v: Vec<u8> = Vec::new();
    v.push(0x44);
    v.push(0x65);
    v.push(0x6c);
    v.push(0x61);
    v.push(0x79);
    proof {
        assert(v@ =~= delay_label());
    }
    v
}

/// Chart parameters of the offset series of a device.
pub fn offset_chart(series: &Vec<i64>, device: &Vec<u8>) -> (r: Result<
    ChartSpec,
    RenderError,
>)
    ensures
        match r {
            Ok(c) => series@.len() > 0 && chart_matches(
                c,
                series@,
                device@,
                offset_label(),
            ),
            Err(e) => e == RenderError::EmptySeries && series@.len() == 0,
        },
{
    let metric = offset_label_exec();
    chart_spec(series, device, &metric)
}

/// Chart parameters of the delay series of a device.
pub fn delay_chart(series: &Vec<i64>, device: &Vec<u8>) -> (r: Result<
    ChartSpec,
    RenderError,
>)
    ensures
        match r {
            Ok(c) => series@.len() > 0 && chart_matches(
                c,
                series@,
                device@,
                delay_label(),
            ),
            Err(e) => e == RenderError::EmptySeries && series@.len() == 0,
        },
{
    let metric = delay_label_exec();
    chart_spec(series, device, &metric)
}

} // verus!
