//! The charts: what the raster renderer and the text renderer have to draw.

use crate::error::{fails_validation, HistError};
use crate::geometry::Geometry;
use crate::rank::RankSeries;
use crate::scale::{axis_scale, axis_scale_of, capped, padded_extent, padded_width};
use vstd::prelude::*;
use vstd::string::*;

verus! {

/// A colour in red, green and blue.
#[derive(Clone, Copy, Debug, PartialEq, Eq, Structural)]
pub struct Rgb {
    pub red: u8,
    pub green: u8,
    pub blue: u8,
}

/// How a raster chart looks, whatever it shows.
#[derive(Clone, Debug)]
pub struct ChartStyle {
    /// The family of the letters.
    pub font: String,
    /// The colour behind the chart.
    pub background: Rgb,
    /// The colour that fills the bars.
    pub bar_color: Rgb,
    /// The room between a bar and the edges of its cell.
    pub bar_margin: u32,
    /// The colour of the lines of the mesh.
    pub mesh_color: Rgb,
    /// How dense the lines of the mesh are, in hundredths.
    pub mesh_opacity: u8,
    /// Whether the mesh has lines for the marks of the x axis.
    pub x_mesh: bool,
    /// The size of the title's letters.
    pub title_size: u32,
    /// The size of the letters at the axes' marks.
    pub label_size: u32,
    /// The size of the letters of the axes' descriptions.
    pub description_size: u32,
    /// The margin round the chart.
    pub margin: u32,
    /// The room below the chart for the marks of the x axis.
    pub x_label_area: u32,
    /// The room left of the chart for the marks of the y axis.
    pub y_label_area: u32,
}

/// How a text chart is laid out, whatever it shows.
#[derive(Clone, Copy, Debug, PartialEq, Eq, Structural)]
pub struct TextStyle {
    /// The width of the canvas.
    pub width: u32,
    /// The height of the canvas.
    pub height: u32,
}

impl ChartStyle {
    /// The style of the charts: blue bars that touch, on white, under a mesh of faint
    /// level lines; the title larger than the descriptions, and these larger than the
    /// marks.
    pub fn standard() -> (style: ChartStyle)
        ensures
            style.font@ == "sans-serif"@,
            style.background == (Rgb { red: 255, green: 255, blue: 255 }),
            style.bar_color == (Rgb { red: 0x2a, green: 0x71, blue: 0xb0 }),
            style.bar_margin == 0,
            style.mesh_color == (Rgb { red: 255, green: 255, blue: 255 }),
            style.mesh_opacity == 30,
            !style.x_mesh,
            style.title_size == 40,
            style.label_size == 20,
            style.description_size == 24,
            style.margin == 20,
            style.x_label_area == 70,
            style.y_label_area == 100,
    {
        ChartStyle {
            font: String::from_str("sans-serif"),
            background: Rgb { red: 255, green: 255, blue: 255 },
            bar_color: Rgb { red: 0x2a, green: 0x71, blue: 0xb0 },
            bar_margin: 0,
            mesh_color: Rgb { red: 255, green: 255, blue: 255 },
            mesh_opacity: 30,
            x_mesh: false,
            title_size: 40,
            label_size: 20,
            description_size: 24,
            margin: 20,
            x_label_area: 70,
            y_label_area: 100,
        }
    }
}

impl TextStyle {
    /// The canvas of the text charts: 160 wide and 80 high.
    pub fn standard() -> (style: TextStyle)
        ensures
            style == (TextStyle { width: 160, height: 80 }),
    {
        TextStyle { width: 160, height: 80 }
    }
}

/// What a raster chart is to show beside its bars, and how large: read, never changed.
pub struct PlotConfig {
    /// The title above the chart.
    pub title: String,
    /// The description of the x axis.
    pub x_label: String,
    /// The description of the y axis.
    pub y_label: String,
    /// The size of the image.
    pub geometry: Geometry,
}

/// One bar: it stands on the x axis from `left` up to `right` and is `height` high.
#[derive(Clone, Copy, Debug, PartialEq, Eq, Structural)]
pub struct Bar {
    pub left: usize,
    pub right: usize,
    pub height: usize,
}

/// A bar chart for the raster renderer.
pub struct RasterChart {
    /// The title above the chart.
    pub title: String,
    /// The description of the x axis.
    pub x_label: String,
    /// The description of the y axis.
    pub y_label: String,
    /// The size of the image.
    pub geometry: Geometry,
    /// The x axis runs over the cells from 0 up to this number.
    pub x_extent: usize,
    /// The y axis runs from 0 to this bound.
    pub y_extent: usize,
    /// The bars, from the first rank on.
    pub bars: Vec<Bar>,
}

/// A bar chart for the text renderer.
pub struct TextChart {
    /// The width of the canvas.
    pub width: u32,
    /// The height of the canvas.
    pub height: u32,
    /// Where the x axis begins.
    pub x_min: usize,
    /// Where the x axis ends.
    pub x_max: usize,
    /// The y axis runs from 0 to this bound.
    pub y_max: usize,
    /// The points of the bars: a rank, counted from 1, and its count.
    pub points: Vec<(usize, usize)>,
}

/// The bar of the 0-based `rank`: one cell wide, as high as the count of that rank.
pub open spec fn bar_of(series: Seq<usize>, rank: int) -> Bar {
    Bar { left: rank as usize, right: (rank + 1) as usize, height: series[series.len() - 1 - rank] }
}

/// The bars of a series, the greatest count first.
pub open spec fn bars_of(series: Seq<usize>) -> Seq<Bar> {
    Seq::new(series.len(), |rank: int| bar_of(series, rank))
}

/// The points of a series: each rank, counted from 1, with its count, the greatest
/// count first.
pub open spec fn points_of(series: Seq<usize>) -> Seq<(usize, usize)> {
    Seq::new(series.len(), |rank: int| ((rank + 1) as usize, series[series.len() - 1 - rank]))
}

/// The heights of `bars`.
pub open spec fn heights(bars: Seq<Bar>) -> Seq<usize> {
    Seq::new(bars.len(), |i: int| bars[i].height)
}

/// The bars show the series read from its end: in falling order of count.
pub proof fn lemma_bars_fall(series: Seq<usize>)
    ensures
        heights(bars_of(series)) == series.reverse(),
        forall|i: int, j: int|
            0 <= i <= j < series.len() && crate::rank::rises(series) ==> bars_of(series)[i].height
                >= bars_of(series)[j].height,
{
    assert(heights(bars_of(series)) =~= series.reverse());
}

/// The bound of the count axis for a series, or why it has none.
fn count_axis(series: &RankSeries) -> (result: Result<usize, HistError>)
    requires
        series.wf(),
    ensures
        match result {
            Ok(bound) => series@.len() > 0 && series@.last() >= 1 && bound == capped(
                axis_scale_of(series@.last() as nat),
            ),
            Err(e) => if series@.len() == 0 {
                e.is_validation("At least one entry is needed"@)
            } else {
                series@.last() == 0 && e.is_validation("A count axis needs a count of at least 1"@)
            },
        },
{
    match series.max() {
        None => Err(HistError::validation("At least one entry is needed")),
        Some(greatest) => axis_scale(greatest),
    }
}

/// The raster chart of `series` under `config`: a bar for each rank on an x axis with a
/// tenth of room to spare, under a y axis that holds the greatest count.
pub fn plan_raster(series: &RankSeries, config: &PlotConfig) -> (result: Result<
    RasterChart,
    HistError,
>)
    requires
        series.wf(),
    ensures
        series@.len() == 0 ==> fails_validation(result, "At least one entry is needed"@),
        series@.len() > 0 && series@.last() == 0 ==> fails_validation(
            result,
            "A count axis needs a count of at least 1"@,
        ),
        series@.len() > 0 && series@.last() >= 1 ==> (result matches Ok(chart) && {
            &&& chart.title@ == config.title@
            &&& chart.x_label@ == config.x_label@
            &&& chart.y_label@ == config.y_label@
            &&& chart.geometry == config.geometry
            &&& chart.x_extent == capped(padded_extent(series@.len()))
            &&& chart.y_extent == capped(axis_scale_of(series@.last() as nat))
            &&& chart.bars@ == bars_of(series@)
        }),
{
    let y_extent = match count_axis(series) {
        Ok(bound) => bound,
        Err(e) => {
            return Err(e);
        },
    };
    let n = series.len();
    let x_extent = padded_width(n);
    let mut bars: Vec<Bar> = Vec::with_capacity(n);
    let mut rank: usize = 0;
    while rank < n
        invariant
            rank <= n,
            n == series@.len(),
            bars@ == bars_of(series@).take(rank as int),
        decreases n - rank,
    {
        bars.push(Bar { left: rank, right: rank + 1, height: series.get(n - 1 - rank) });
        assert(bars@ =~= bars_of(series@).take(rank + 1));
        rank = rank + 1;
    }
    assert(bars@ =~= bars_of(series@));
    Ok(
        RasterChart {
            title: config.title.clone(),
            x_label: config.x_label.clone(),
            y_label: config.y_label.clone(),
            geometry: config.geometry,
            x_extent,
            y_extent,
            bars,
        },
    )
}

/// The text chart of `series` on a canvas of `width` by `height`, over the x axis from
/// `x_min` to `x_max`: a point for each rank, under a y axis that holds the greatest
/// count.
pub fn plan_text(series: &RankSeries, width: u32, height: u32, x_min: usize, x_max: usize) -> (result:
    Result<TextChart, HistError>)
    requires
        series.wf(),
    ensures
        series@.len() == 0 ==> fails_validation(result, "At least one entry is needed"@),
        series@.len() > 0 && series@.last() == 0 ==> fails_validation(
            result,
            "A count axis needs a count of at least 1"@,
        ),
        series@.len() > 0 && series@.last() >= 1 ==> (result matches Ok(chart) && {
            &&& chart.width == width
            &&& chart.height == height
            &&& chart.x_min == x_min
            &&& chart.x_max == x_max
            &&& chart.y_max == capped(axis_scale_of(series@.last() as nat))
            &&& chart.points@ == points_of(series@)
        }),
{
    let y_max = match count_axis(series) {
        Ok(bound) => bound,
        Err(e) => {
            return Err(e);
        },
    };
    let n = series.len();
    let mut points: Vec<(usize, usize)> = Vec::with_capacity(n);
    let mut rank: usize = 0;
    while rank < n
        invariant
            rank <= n,
            n == series@.len(),
            points@ == points_of(series@).take(rank as int),
        decreases n - rank,
    {
        points.push((rank + 1, series.get(n - 1 - rank)));
        assert(points@ =~= points_of(series@).take(rank + 1));
        rank = rank + 1;
    }
    assert(points@ =~= points_of(series@));
    Ok(TextChart { width, height, x_min, x_max, y_max, points })
}

} // verus!
