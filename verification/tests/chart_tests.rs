use xtop_widgets::chart::{column_cells, column_samples, plot_geometry, spark_bucket, spark_glyph, spark_levels};
use xtop_widgets::glyph::ChartCharset;

// The sampling half of the chart engine runs on `f64` histories; these
// helpers feed the library's column ranges, geometry and glyph cells with it
// so the tests see the whole pipeline.

fn pts(y: &[f64]) -> Vec<(f64, f64)> {
    y.iter().enumerate().map(|(i, &v)| (i as f64, v)).collect()
}

fn interpolate(vals: &[(f64, f64)], pos: f64) -> f64 {
    let n = vals.len();
    let base = (pos.floor() as usize).min(n - 1);
    let frac = pos - base as f64;
    let next = (base + 1).min(n - 1);
    vals[base].1 + (vals[next].1 - vals[base].1) * frac
}

/// Per column: the peak value and the index of the series that reached it.
fn column_peaks(series: &[Vec<(f64, f64)>], width: usize) -> Vec<(f64, usize)> {
    let mut peaks = vec![(0.0, 0); width];
    for (si, vals) in series.iter().enumerate() {
        let n = vals.len();
        for (c, peak) in peaks.iter_mut().enumerate() {
            let center = c as f64 * (n - 1) as f64 / (width - 1) as f64;
            let mut v = interpolate(vals, center);
            let (lo, hi) = column_samples(c, n, width);
            for &(_, y) in &vals[lo..hi] {
                if y > v {
                    v = y;
                }
            }
            if v > peak.0 {
                *peak = (v, si);
            }
        }
    }
    peaks
}

/// The text rows (top first) a chart of `height` rows paints.
fn chart_rows(series: &[Vec<(f64, f64)>], width: usize, height: usize, charset: ChartCharset, y_max: f64) -> Vec<String> {
    let g = plot_geometry(charset, height).expect("engine charset");
    let mut grid = vec![vec![' '; width]; height];
    for (x, (v, _)) in column_peaks(series, width).into_iter().enumerate() {
        let level = ((v / y_max * g.levels_total as f64).round() as usize).min(g.levels_total);
        for (ry, glyph) in column_cells(level, height, g.per_cell, g.block_ramp) {
            grid[ry][x] = glyph;
        }
    }
    grid.into_iter().map(|r| r.into_iter().collect()).collect()
}

fn roles_of(v: f64) -> usize {
    if v >= 90.0 {
        1
    } else if v >= 50.0 {
        3
    } else {
        2
    }
}

/// A one-row spark of `values` in `width` cells: samples at or below zero
/// paint nothing.
fn spark(charset: ChartCharset, values: &[f64], width: usize, y_max: f64) -> Vec<(char, usize)> {
    let levels = spark_levels(charset);
    let n = values.len();
    let mut out = Vec::new();
    for c in 0..width {
        let v = if n <= width {
            values.get(c).copied().unwrap_or(0.0)
        } else {
            let (lo, hi) = spark_bucket(c, n, width);
            values[lo..hi].iter().copied().fold(0.0_f64, f64::max)
        };
        if v <= 0.0 {
            continue;
        }
        let level = ((v / y_max * levels as f64).round() as usize).clamp(1, levels);
        out.push((spark_glyph(charset, level), roles_of(v)));
    }
    out
}

#[test]
fn dot_and_bar_charsets_are_not_engine_handled() {
    for charset in [ChartCharset::Dot, ChartCharset::Bar] {
        assert_eq!(plot_geometry(charset, 2), None);
    }
}

#[test]
fn flat_half_series_draws_block_ramp_at_expected_height() {
    for charset in [ChartCharset::Braille, ChartCharset::Block] {
        assert_eq!(chart_rows(&[pts(&[50.0; 8])], 4, 1, charset, 100.0), vec!["▄▄▄▄"]);
    }
}

#[test]
fn braille_two_row_chart_uses_four_subrows_per_row() {
    let rows = chart_rows(&[pts(&[75.0; 8])], 4, 2, ChartCharset::Braille, 100.0);
    assert_eq!(rows[1], "⣿⣿⣿⣿");
    assert_eq!(rows[0], "⣰⣰⣰⣰");
}

#[test]
fn block_charset_uses_eight_heights_per_row() {
    let rows = chart_rows(&[pts(&[75.0; 4])], 2, 2, ChartCharset::Block, 100.0);
    assert_eq!(rows[1], "██");
    assert_eq!(rows[0], "▄▄");
}

#[test]
fn multi_series_column_takes_the_highest_series_color() {
    let rx = pts(&[0.0, 0.0, 0.0, 0.0, 10.0, 40.0, 60.0, 90.0]);
    let tx = pts(&[0.0, 5.0, 10.0, 20.0, 20.0, 20.0, 20.0, 30.0]);
    let peaks = column_peaks(&[rx, tx], 8);
    assert_eq!(peaks[5].1, 0);
    assert_eq!(peaks[7].1, 0);
}

#[test]
fn tx_wins_where_it_is_higher() {
    let rx = pts(&[0.0, 5.0, 10.0]);
    let tx = pts(&[0.0, 60.0, 20.0]);
    assert_eq!(column_peaks(&[rx, tx], 3)[1].1, 1);
}

#[test]
fn columns_interpolate_between_sparse_samples() {
    let rows = chart_rows(&[pts(&[10.0, 60.0, 10.0])], 8, 1, ChartCharset::Braille, 100.0);
    assert_eq!(rows, vec!["▁▂▃▅▄▃▂▁"]);
}

#[test]
fn columns_keep_bucket_peaks_when_samples_share_a_column() {
    let y = [10.0, 90.0, 20.0, 30.0, 40.0, 50.0, 60.0, 70.0, 80.0, 90.0, 10.0, 10.0];
    let rows = chart_rows(&[pts(&y)], 4, 1, ChartCharset::Braille, 100.0);
    assert_eq!(rows, vec!["▇▆▇▁"]);
}

#[test]
fn spark_braille_cells_map_levels_and_roles() {
    assert_eq!(
        spark(ChartCharset::Braille, &[100.0, 25.0, 62.5, 0.0], 4, 100.0),
        vec![('⣿', 1), ('⣀', 2), ('⣶', 3)]
    );
}

#[test]
fn spark_block_charset_uses_eight_levels() {
    assert_eq!(spark(ChartCharset::Block, &[100.0, 50.0, 12.5], 3, 100.0), vec![('█', 1), ('▄', 3), ('▁', 2)]);
}

#[test]
fn spark_compresses_long_series_by_bucket_peaks() {
    let vals: Vec<f64> = (0..12).map(|i| i as f64 * 8.0).collect();
    assert_eq!(spark(ChartCharset::Braille, &vals, 4, 100.0), vec![('⣀', 2), ('⣰', 2), ('⣶', 3), ('⣿', 3)]);
}

#[test]
fn spark_short_series_leaves_trailing_cells_empty() {
    assert_eq!(spark(ChartCharset::Braille, &[30.0], 4, 100.0), vec![('⣀', 2)]);
}

#[test]
fn bucket_ranges_tile_the_series() {
    let mut next = 0;
    for c in 0..4 {
        let (lo, hi) = spark_bucket(c, 10, 4);
        assert_eq!(lo, next);
        assert!(hi > lo);
        next = hi;
    }
    assert_eq!(next, 10);
    assert_eq!(column_samples(0, 3, 8), (0, 1));
    assert_eq!(column_samples(7, 3, 8), (2, 3));
}
