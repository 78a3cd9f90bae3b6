use xtop_widgets::chart::{column_cells, engine_charset, history_split, plot_geometry};
use xtop_widgets::disk_io::{device_row, device_rows, squeeze_spaces, DeviceText};
use xtop_widgets::glyph::ChartCharset;
use xtop_widgets::memory::{compact_line, memory_chart_rows, meter_cells, selected_sections};
use xtop_widgets::network::{
    aggregate_line, chart_reserve, iface_row, list_rows, more_line, sum_bytes, IfaceText,
};
use xtop_widgets::options::JsonValue;
use xtop_widgets::paint::{bar_cells, fill_area, intersection, text_cells, Area};
use xtop_widgets::sensors::{cell_temp_x, sensor_cell, sensor_fill, sensor_grid, sensor_row};
use xtop_widgets::status::{battery_time, header_extras, host_label};
use xtop_widgets::storage::{
    block_cells, compact_row, disk_detail, full_row, row_style, storage_mode, text_only_row,
    BlockHead, RowStyle, StorageMode,
};

const GIB: u64 = 1024 * 1024 * 1024;

fn obj(members: Vec<(&str, JsonValue)>) -> JsonValue {
    JsonValue::Object(members.into_iter().map(|(k, v)| (k.to_string(), v)).collect())
}

fn list(v: &[&str]) -> JsonValue {
    JsonValue::Array(v.iter().map(|s| JsonValue::Str(s.to_string())).collect())
}

#[test]
fn memory_sections_default_to_all() {
    assert_eq!(selected_sections(None), (true, true, true));
    assert_eq!(selected_sections(Some(&obj(vec![("sections", list(&["swap"]))]))), (false, false, true));
    assert_eq!(
        selected_sections(Some(&obj(vec![("sections", list(&["memory", "available"]))]))),
        (true, true, false)
    );
    assert_eq!(selected_sections(Some(&obj(vec![("sections", list(&["bogus"]))]))), (true, true, true));
    assert_eq!(
        selected_sections(Some(&obj(vec![("sections", JsonValue::Str("memory".into()))]))),
        (true, true, true)
    );
}

#[test]
fn memory_wide_rows_keep_percent_bar_and_detail_apart() {
    let c = meter_cells(0, 60, 3, 25, true, true);
    assert_eq!((c.x_pct, c.x_bar, c.bar_w), (5, 9, 18));
    assert!(c.detail && c.spark);
    assert_eq!((c.detail_x, c.spark_x), (28, 54));
    assert!(c.x_bar + c.bar_w < c.detail_x);
    let c = meter_cells(0, 60, 3, 25, true, false);
    assert!(c.detail && !c.spark);
    assert_eq!((c.bar_w, c.detail_x), (25, 35));
    let c = meter_cells(0, 30, 3, 25, true, true);
    assert!(!c.detail && !c.spark);
    assert_eq!(c.bar_w, 21);
}

#[test]
fn memory_summary_line_below_min_width() {
    assert_eq!(compact_line(true, true, true, "42", Some("60"), "5"), "RAM 42% AVL 60% SWP 5%");
    assert_eq!(compact_line(false, true, true, "42", None, "5"), "SWP 5%");
    assert_eq!(compact_line(true, false, false, "42", Some("60"), "5"), "RAM 42%");
    assert_eq!(memory_chart_rows(10, 4, 20, 5), 6);
    assert_eq!(memory_chart_rows(10, 4, 10, 5), 0);
    assert_eq!(memory_chart_rows(10, 10, 20, 5), 0);
}

#[test]
fn network_rows_leave_room_for_the_chart_and_the_more_line() {
    assert_eq!(chart_reserve(true, 20, 5), 2);
    assert_eq!(chart_reserve(true, 10, 5), 0);
    assert_eq!(chart_reserve(false, 20, 5), 0);
    assert_eq!(list_rows(10, 2, 12), (8, true));
    assert_eq!(list_rows(10, 0, 3), (3, false));
    assert_eq!(list_rows(3, 2, 5), (1, true));
    assert_eq!(list_rows(1, 0, 5), (1, false));
    assert_eq!(more_line(4), "… +4 more");
}

#[test]
fn iface_rows_degrade_with_the_width() {
    let r = iface_row(0, 70, "eth0", "1.20 MB/s", "33.0 KB/s", 1024, 2048);
    assert_eq!(r.name_cell, "eth0    ");
    assert_eq!(r.bar_x, Some(9));
    match r.text {
        IfaceText::Full { rx_x, tx_at, tot_x, tot } => {
            assert_eq!((rx_x, tx_at, tot_x), (17, 28, 42));
            assert_eq!(tot, "tot 1.00 KB / 2.00 KB");
        }
        _ => panic!("full row expected"),
    }
    let r = iface_row(0, 45, "eth0", "1.20 MB/s", "33.0 KB/s", 1024, 2048);
    assert!(matches!(r.text, IfaceText::Body { rx_x: 17, tx_at: 28 }));
    let r = iface_row(0, 30, "wlan0", "1.20 MB/s", "33.0 KB/s", 1024, 2048);
    assert_eq!(r.bar_x, None);
    match r.text {
        IfaceText::Fallback { line } => assert_eq!(line, "wlan0  RX 1.20 MB/s  TX 33.0 …"),
        _ => panic!("fallback expected"),
    }
    let r = iface_row(0, 70, "enp0s31f6-long", "0 B/s", "0 B/s", 0, 0);
    assert_eq!(r.name_cell, "enp0s31…");
}

#[test]
fn network_totals_add_up() {
    assert_eq!(sum_bytes(&vec![1, 2, 3]), 6);
    assert_eq!(sum_bytes(&vec![]), 0);
    assert_eq!(aggregate_line("1.20 MB/s", 1536), "1.20 MB/s  tot 1.50 KB");
}

#[test]
fn storage_picks_blocks_or_rows() {
    assert_eq!(storage_mode(40, 10, 3), StorageMode::Blocks { per_disk: 3 });
    assert_eq!(storage_mode(40, 5, 3), StorageMode::Rows { rows: 3 });
    assert_eq!(storage_mode(40, 2, 3), StorageMode::Rows { rows: 2 });
    assert_eq!(storage_mode(10, 10, 2), StorageMode::Rows { rows: 2 });
    assert_eq!(row_style(40), RowStyle::Full);
    assert_eq!(row_style(20), RowStyle::Compact);
    assert_eq!(row_style(8), RowStyle::TextOnly);
}

#[test]
fn storage_rows_show_used_and_free_amounts() {
    assert_eq!(disk_detail("20", 50 * GIB, 250 * GIB), "20%  used 50 GB · free 200 GB");
    assert_eq!(disk_detail("0", 0, 0), "0%  ");
    let c = full_row(0, 40, 20);
    assert_eq!((c.label_w, c.bar_x, c.bar_w, c.detail_x, c.spark_w), (12, 13, 6, 20, 0));
    let c = full_row(0, 80, 20);
    assert_eq!((c.bar_w, c.detail_x, c.spark_w, c.spark_x), (39, 53, 6, 74));
    let c = compact_row(0, 20, 3);
    assert_eq!((c.label_w, c.pct_x, c.bar_x, c.bar_w), (10, 12, 16, 4));
    assert_eq!(text_only_row("/home", "42", 8), "/home 4…");
    assert_eq!(text_only_row("/", "42", 8), "/ 42%");
}

#[test]
fn tall_storage_blocks_show_amounts_on_the_mount_line() {
    let b = block_cells(0, 40, 3, 20);
    assert_eq!(b.label_w, 12);
    assert_eq!(b.head, BlockHead::Detail { x: 20 });
    assert!(b.used_row && b.avail_row);
    assert_eq!((b.bar_x, b.bar_w), (2, 38));
    let b = block_cells(0, 25, 2, 5);
    assert_eq!(b.head, BlockHead::Pct { x: 21 });
    assert!(b.used_row && !b.avail_row);
    assert_eq!(block_cells(0, 18, 2, 5).head, BlockHead::LabelOnly);
}

#[test]
fn disk_io_rows_and_bars() {
    assert_eq!(device_rows(10, 12, true), (8, true));
    assert_eq!(device_rows(10, 12, false), (10, false));
    assert_eq!(squeeze_spaces("1.20 MB/s"), "1.20MB/s");
    match device_row(0, 60, "nvme0n1", "1.20 MB/s", "33.0 KB/s") {
        DeviceText::Bars { name, r_x, w_x, bars } => {
            assert_eq!(name, "nvme0n1");
            assert_eq!((r_x, w_x), (11, 24));
            assert_eq!(bars, Some(((37, 11), (49, 11))));
        }
        _ => panic!("bars expected"),
    }
    match device_row(0, 25, "sda", "1.2MB/s", "3KB/s") {
        DeviceText::Texts { name, r_x, w_x } => {
            assert_eq!(name, "sda");
            assert_eq!((r_x, w_x), (8, 18));
        }
        _ => panic!("texts expected"),
    }
    match device_row(0, 12, "sda", "1.2MB/s", "3KB/s") {
        DeviceText::Line { line } => assert_eq!(line, "sda R 1.2MB…"),
        _ => panic!("line expected"),
    }
}

#[test]
fn sensors_grid_packs_columns() {
    let g = sensor_grid(8, 4, 40, 10);
    assert_eq!((g.cell_w, g.cols, g.rows_used, g.shown, g.all_shown), (9, 4, 2, 8, true));
    assert_eq!(sensor_cell(g, 1, 1, 40, 10, 5), (19, 2));
    let g = sensor_grid(8, 4, 40, 1);
    assert_eq!((g.rows_used, g.shown, g.all_shown), (1, 4, false));
    let g = sensor_grid(3, 4, 10, 5);
    assert_eq!((g.cols, g.rows_used, g.shown), (1, 3, 3));
}

#[test]
fn sensor_rows_align_the_value_and_keep_the_bar_inside() {
    let r = sensor_row(0, 20, "CPU3", "47°");
    assert_eq!(r.label, "CPU3");
    assert_eq!(r.value, Some((4, "47°".to_string())));
    assert_eq!(r.bar, Some((9, 11)));
    let r = sensor_row(0, 6, "CPU3", "47°");
    assert_eq!(r.value, Some((4, "4…".to_string())));
    assert_eq!(r.bar, None);
    let r = sensor_row(0, 4, "CPU3", "47°");
    assert_eq!(r.value, None);
    assert_eq!(cell_temp_x(10, 9, "CPU12"), ("CPU12".to_string(), 16));
    assert_eq!(sensor_fill(3, 10, 20, 5), (Some(3), 6));
    assert_eq!(sensor_fill(9, 10, 20, 5), (Some(9), 0));
    assert_eq!(sensor_fill(10, 10, 20, 5), (None, 0));
}

#[test]
fn painter_text_and_fill_clip_at_the_buffer() {
    assert_eq!(text_cells(2, "abc", 4), (vec![(2, 'a'), (3, 'b')], 4));
    assert_eq!(text_cells(5, "abc", 4), (vec![], 5));
    assert_eq!(text_cells(0, "ab", 10), (vec![(0, 'a'), (1, 'b')], 2));
    let a = Area { x: 0, y: 0, width: 10, height: 5 };
    let b = Area { x: 5, y: 2, width: 10, height: 10 };
    assert_eq!(intersection(a, b), Area { x: 5, y: 2, width: 5, height: 3 });
    assert_eq!(fill_area(Area { x: 20, y: 0, width: 5, height: 1 }, a), None);
    assert_eq!(fill_area(b, a), Some(Area { x: 5, y: 2, width: 5, height: 3 }));
}

#[test]
fn bars_fill_full_cells_then_a_tip() {
    assert_eq!(bar_cells(0, 4, 13), vec![(0, '█'), (1, '▅')]);
    assert_eq!(bar_cells(3, 4, 32), vec![(3, '█'), (4, '█'), (5, '█'), (6, '█')]);
    assert_eq!(bar_cells(0, 4, 40).len(), 4);
    assert_eq!(bar_cells(0, 4, 0), vec![]);
    assert_eq!(bar_cells(0, 0, 5), vec![]);
}

#[test]
fn chart_columns_fill_from_the_baseline() {
    assert_eq!(column_cells(6, 2, 4, false), vec![(1, '⣿'), (0, '⣰')]);
    assert_eq!(column_cells(3, 2, 8, true), vec![(1, '▃')]);
    assert_eq!(column_cells(100, 2, 8, true), vec![(1, '█'), (0, '█')]);
    assert_eq!(column_cells(0, 3, 4, false), vec![]);
    assert!(!engine_charset(ChartCharset::Dot));
    assert!(!engine_charset(ChartCharset::Bar));
    assert!(engine_charset(ChartCharset::HalfBlock));
    assert_eq!(plot_geometry(ChartCharset::Dot, 4), None);
    let g = plot_geometry(ChartCharset::Braille, 1).unwrap();
    assert_eq!((g.levels_total, g.per_cell, g.block_ramp), (8, 8, true));
    let g = plot_geometry(ChartCharset::Braille, 3).unwrap();
    assert_eq!((g.levels_total, g.per_cell, g.block_ramp), (12, 4, false));
}

#[test]
fn history_rows_split_into_divider_and_plot() {
    let s = history_split(10, 4, true);
    assert_eq!((s.top, s.divider, s.plot_y, s.plot_h), (6, true, 7, 3));
    let s = history_split(10, 4, false);
    assert_eq!((s.divider, s.plot_y, s.plot_h), (false, 6, 4));
    let s = history_split(10, 2, true);
    assert_eq!((s.divider, s.plot_y, s.plot_h), (false, 8, 2));
}

#[test]
fn header_and_battery_status_texts() {
    assert_eq!(header_extras(Some("cpu"), true), "[Full: cpu] [/] Search");
    assert_eq!(header_extras(None, true), "[/] Search");
    assert_eq!(header_extras(None, false), "");
    assert_eq!(host_label(""), "xtop");
    assert_eq!(host_label("box\u{1}"), "box?");
    assert_eq!(battery_time("Charging", Some(3600), None), " 60m to full");
    assert_eq!(battery_time("Discharging", Some(1), Some(7200)), " 120m remaining");
    assert_eq!(battery_time("Full", Some(60), Some(60)), "");
    assert_eq!(battery_time("Charging", None, Some(60)), "");
}

#[test]
fn rows_lay_out_up_to_the_coordinate_limit() {
    // An area flush with the last addressable column still gets its cells.
    let m = meter_cells(65_500, 35, 3, 10, false, false);
    assert_eq!(m.x_bar, 65_509);
    assert!(m.x_bar + m.bar_w <= 65_535);
    let c = compact_row(65_520, 15, 3);
    assert_eq!(c.bar_x + c.bar_w, 65_535);
    let b = block_cells(65_535, 0, 1, 0);
    assert!(!b.used_row && !b.avail_row);
    match device_row(65_500, 35, "sda", "1.0 KB/s", "2.0 KB/s") {
        DeviceText::Bars { bars, .. } => {
            if let Some((_, (wx, ww))) = bars {
                assert_eq!(wx + ww, 65_535);
            }
        }
        _ => panic!("wide rows carry bars"),
    }
}
