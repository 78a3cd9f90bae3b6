use xtop_widgets::blocks::{
    ascii_fill, avg_bar_width, cpu_bar_width, cpu_budget, disk_compact_widths, disk_row_widths,
    fit_body, fit_spans, gauge_widths, io_bar_width, kept_span_count, meter_widths,
    mount_line_widths, net_rows, table_cell, table_header, temp_cell_widths, trim_end_string,
    unify_row, used_slash_total, UnifyRow,
};
use xtop_widgets::processes::{Column, CpuColumns};

fn spans(v: &[&str]) -> Vec<String> {
    v.iter().map(|s| s.to_string()).collect()
}

#[test]
fn lines_drop_trailing_spans_until_they_fit() {
    assert_eq!(fit_spans(&spans(&["abc", "de", "f"]), 5), 2);
    assert_eq!(fit_spans(&spans(&["abc", "de", "f"]), 6), 3);
    assert_eq!(fit_spans(&spans(&["abc", "de", "f"]), 2), 0);
    // Span widths are terminal columns: wide chars take two.
    assert_eq!(fit_spans(&spans(&["日本"]), 3), 0);
    assert_eq!(fit_spans(&spans(&["日本"]), 4), 1);
    assert_eq!(fit_spans(&spans(&[]), 0), 0);
}

#[test]
fn ascii_bars_and_bodies() {
    assert_eq!(ascii_fill(3, 5), "###");
    assert_eq!(ascii_fill(9, 5), "#####");
    assert_eq!(ascii_fill(0, 5), "");
    assert_eq!(fit_body("hello world", 5), "hel…");
    assert_eq!(fit_body("hi", 5), "hi");
    assert_eq!(fit_body("hi", 0), "");
    assert_eq!(used_slash_total(1024, 2048), "1.00 KB / 2.00 KB");
}

#[test]
fn row_budgets_and_bar_widths() {
    assert_eq!(cpu_budget(10, 8, true), (9, true));
    assert_eq!(cpu_budget(8, 8, true), (8, false));
    assert_eq!(cpu_budget(10, 8, false), (10, false));
    assert_eq!(cpu_bar_width(40, 4, false, true, true), 23);
    assert_eq!(cpu_bar_width(40, 4, true, false, false), 22);
    assert_eq!(cpu_bar_width(10, 4, true, true, true), 0);
    assert_eq!(avg_bar_width(8), 1);
    assert_eq!(avg_bar_width(40), 30);
    assert_eq!(meter_widths(60, 20, true), (29, 0));
    assert_eq!(meter_widths(70, 20, true), (33, 6));
    assert_eq!(meter_widths(20, 20, true), (11, 0));
    assert_eq!(gauge_widths(40, 3, Some(11)), (20, true));
    assert_eq!(gauge_widths(20, 3, Some(11)), (12, false));
    assert_eq!(gauge_widths(20, 3, None), (12, false));
    assert_eq!(net_rows(10, 2, 3, false), (3, false, 2));
    assert_eq!(net_rows(10, 2, 12, false), (8, true, 0));
    assert_eq!(net_rows(4, 0, 3, false), (3, false, 1));
    assert_eq!(net_rows(10, 2, 3, true), (3, false, 0));
}

#[test]
fn table_cells_align_numbers_right_and_texts_left() {
    assert_eq!(table_cell(Column::Pid, 7, "1234"), "   1234");
    assert_eq!(table_cell(Column::Name, 6, "firefox"), "firef…");
    assert_eq!(table_cell(Column::User, 6, "root"), "root  ");
    assert_eq!(table_cell(Column::Spark, 3, "x"), "   ");
}

#[test]
fn table_header_marks_the_sorted_column() {
    let cols = vec![(Column::Pid, 7), (Column::Name, 10), (Column::CpuCore, 6)];
    assert_eq!(table_header(&cols, CpuColumns::Core, "CPU%", true), "    PID|      Name|CPU% ▼");
    assert_eq!(table_header(&cols, CpuColumns::Core, "PID", false), "  PID ▲|      Name|  CPU%");
    let both = vec![(Column::Pid, 7), (Column::CpuCore, 6), (Column::CpuTotal, 6)];
    assert_eq!(table_header(&both, CpuColumns::Both, "CPU%", true), "    PID| CPU ▼|  CPU%");
    let total = vec![(Column::Pid, 7), (Column::CpuTotal, 6)];
    assert_eq!(table_header(&total, CpuColumns::Total, "CPU%", false), "    PID|CPU% ▲");
    let spark = vec![(Column::Pid, 7), (Column::Spark, 2)];
    assert_eq!(table_header(&spark, CpuColumns::Core, "Name", true), "    PID|");
    assert_eq!(trim_end_string(&"ab  \t".to_string()), "ab");
}

#[test]
fn storage_rows_split_mount_bar_detail_and_spark() {
    // `15%  10.00 GB · 90.00 GB` is 25 bytes.
    let r = disk_row_widths(78, 25, true);
    assert_eq!((r.bar_w, r.detail_room, r.spark_w), (78 - 12 - 2 - 25 - 1 - 6, 65, 6));
    let r = disk_row_widths(40, 25, true);
    assert_eq!((r.bar_w, r.spark_w), (0, 0));
    assert_eq!(disk_compact_widths(20), (10, 4));
    assert_eq!(disk_compact_widths(8), (1, 1));
    assert_eq!(mount_line_widths(40, 25), (12, 28));
    assert_eq!(mount_line_widths(20, 4), (12, 8));
    assert_eq!(mount_line_widths(10, 25), (0, 10));
}

#[test]
fn device_bars_share_the_rest_of_the_row() {
    assert_eq!(io_bar_width(60, 8, 8), 13);
    assert_eq!(io_bar_width(30, 8, 8), 1);
}

#[test]
fn temperature_cells_keep_the_value_slot_and_bar_room() {
    let c = temp_cell_widths(40, 0, 9, 4);
    assert_eq!((c.room, c.value_room, c.bar_room, c.space), (40, 4, 31, 4));
    let c = temp_cell_widths(40, 4, 9, 4);
    assert_eq!((c.room, c.value_room, c.bar_room), (4, 0, 0));
    let c = temp_cell_widths(40, 9, 9, 5);
    assert_eq!((c.room, c.space), (0, 3));
}

#[test]
fn kept_span_count_drops_trailing_spans_until_the_rest_fits() {
    assert_eq!(kept_span_count(&vec![3, 2, 5], 10), 3);
    assert_eq!(kept_span_count(&vec![3, 2, 5], 9), 2);
    assert_eq!(kept_span_count(&vec![3, 2, 5], 5), 2);
    assert_eq!(kept_span_count(&vec![3, 2, 5], 4), 1);
    assert_eq!(kept_span_count(&vec![3, 2, 5], 2), 0);
    assert_eq!(kept_span_count(&vec![], 2), 0);
}

#[test]
fn fit_spans_measures_display_width_not_bytes() {
    // "°" is two bytes but one column wide.
    assert_eq!(fit_spans(&spans(&["47°", "  "]), 5), 2);
    assert_eq!(fit_spans(&spans(&["47°", "  "]), 4), 1);
}

#[test]
fn unify_row_temp_segment_honours_show_temp() {
    assert_eq!(unify_row(70, false, true, false), UnifyRow::Average { bar_w: 60 });
    assert_eq!(unify_row(70, true, true, false), UnifyRow::Segments { chunk: 8, temp: true, power: false });
    assert_eq!(unify_row(70, false, true, true), UnifyRow::Segments { chunk: 8, temp: false, power: true });
    assert_eq!(unify_row(40, true, false, true), UnifyRow::Segments { chunk: 4, temp: false, power: true });
    assert_eq!(unify_row(55, true, true, true), UnifyRow::Segments { chunk: 6, temp: true, power: true });
    assert_eq!(unify_row(30, true, true, false), UnifyRow::Segments { chunk: 0, temp: true, power: false });
    assert_eq!(unify_row(8, true, false, false), UnifyRow::Average { bar_w: 1 });
}

#[test]
fn unused_label_widths_beyond_sixty_four_are_accepted() {
    assert_eq!(gauge_widths(100, 80, None), (15, false));
    assert_eq!(cpu_bar_width(100, 80, false, false, false), 14);
}
