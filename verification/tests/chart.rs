use hist::aggregate::count_keys;
use hist::chart::{plan_raster, plan_text, Bar, ChartStyle, PlotConfig, Rgb, TextStyle};
use hist::error::HistError;
use hist::geometry::Geometry;
use hist::rank::RankSeries;

fn config() -> PlotConfig {
    PlotConfig {
        title: "Counts distribution".to_string(),
        x_label: "Rank".to_string(),
        y_label: "Counts".to_string(),
        geometry: Geometry { width: 1280, height: 960 },
    }
}

#[test]
fn the_bars_fall_from_the_first_rank_on() {
    let series = RankSeries::from_counts(&vec![3, 1, 2]);
    let chart = plan_raster(&series, &config()).unwrap();
    assert_eq!(
        chart.bars,
        vec![
            Bar { left: 0, right: 1, height: 3 },
            Bar { left: 1, right: 2, height: 2 },
            Bar { left: 2, right: 3, height: 1 },
        ]
    );
    assert_eq!(chart.x_extent, 4);
    assert_eq!(chart.y_extent, 3);
}

#[test]
fn the_chart_of_a_table() {
    let table = count_keys(b"a\na\nb\n", b'\t', false, 1).unwrap();
    let chart = plan_raster(&table.rank_series(), &config()).unwrap();
    let heights: Vec<usize> = chart.bars.iter().map(|bar| bar.height).collect();
    assert_eq!(heights, vec![2, 1]);
    assert_eq!(chart.x_extent, 3);
    assert_eq!(chart.y_extent, 2);
}

#[test]
fn the_axes_leave_room() {
    let counts: Vec<usize> = (1..=10).map(|i| i * 100).collect();
    let chart = plan_raster(&RankSeries::from_counts(&counts), &config()).unwrap();
    assert_eq!(chart.bars.len(), 10);
    assert_eq!(chart.x_extent, 11);
    assert_eq!(chart.y_extent, 1000);
    let more = plan_raster(&RankSeries::from_counts(&vec![1001]), &config()).unwrap();
    assert_eq!(more.x_extent, 2);
    assert_eq!(more.y_extent, 1258);
}

#[test]
fn title_labels_and_size_are_taken_as_they_are() {
    let given = PlotConfig {
        title: "T\u{e9}st  title ".to_string(),
        x_label: "".to_string(),
        y_label: "how often".to_string(),
        geometry: Geometry { width: 7, height: 9 },
    };
    let chart = plan_raster(&RankSeries::from_counts(&vec![4]), &given).unwrap();
    assert_eq!(chart.title, "T\u{e9}st  title ");
    assert_eq!(chart.x_label, "");
    assert_eq!(chart.y_label, "how often");
    assert_eq!(chart.geometry, Geometry { width: 7, height: 9 });
}

#[test]
fn no_chart_of_an_empty_series() {
    let series = RankSeries::from_counts(&Vec::new());
    match plan_raster(&series, &config()) {
        Err(HistError::Validation(text)) => assert_eq!(text, "At least one entry is needed"),
        _ => panic!("an empty series has no chart"),
    }
    match plan_text(&series, 160, 80, 0, 0) {
        Err(HistError::Validation(text)) => assert_eq!(text, "At least one entry is needed"),
        _ => panic!("an empty series has no chart"),
    }
}

#[test]
fn no_chart_of_counts_that_are_all_zero() {
    let series = RankSeries::from_counts(&vec![0, 0]);
    match plan_raster(&series, &config()) {
        Err(HistError::Validation(text)) => {
            assert_eq!(text, "A count axis needs a count of at least 1")
        }
        _ => panic!("counts of zero have no chart"),
    }
    match plan_text(&series, 160, 80, 0, 3) {
        Err(HistError::Validation(text)) => {
            assert_eq!(text, "A count axis needs a count of at least 1")
        }
        _ => panic!("counts of zero have no chart"),
    }
}

#[test]
fn the_points_of_the_text_chart_count_ranks_from_one() {
    let series = RankSeries::from_counts(&vec![3, 1, 2, 8]);
    let chart = plan_text(&series, 160, 80, 0, 5).unwrap();
    assert_eq!(chart.points, vec![(1, 8), (2, 3), (3, 2), (4, 1)]);
    assert_eq!(chart.width, 160);
    assert_eq!(chart.height, 80);
    assert_eq!(chart.x_min, 0);
    assert_eq!(chart.x_max, 5);
    assert_eq!(chart.y_max, 10);
}

#[test]
fn the_styles_are_the_usual_ones() {
    let style = ChartStyle::standard();
    assert_eq!(style.font, "sans-serif");
    assert_eq!(style.background, Rgb { red: 255, green: 255, blue: 255 });
    assert_eq!(style.bar_color, Rgb { red: 0x2a, green: 0x71, blue: 0xb0 });
    assert_eq!(style.bar_margin, 0);
    assert_eq!(style.mesh_color, Rgb { red: 255, green: 255, blue: 255 });
    assert_eq!(style.mesh_opacity, 30);
    assert!(!style.x_mesh);
    assert_eq!(style.title_size, 40);
    assert_eq!(style.label_size, 20);
    assert_eq!(style.description_size, 24);
    assert_eq!(style.margin, 20);
    assert_eq!(style.x_label_area, 70);
    assert_eq!(style.y_label_area, 100);
    assert_eq!(TextStyle::standard(), TextStyle { width: 160, height: 80 });
}
