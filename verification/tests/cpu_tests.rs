use xtop_widgets::cpu::{
    cpu_grid, cpu_label_cell, cpu_label_width, cpu_row_cells, cpu_summary_line, cpu_tail,
    cpu_title, fit_extras, freq_cells_on, history_label_fits, temp_cells_on, token_segment,
    unified_row, unify_chunk, CpuTail, TempPref, UnifyPlan,
};
use xtop_widgets::options::JsonValue;

fn obj(members: Vec<(&str, JsonValue)>) -> JsonValue {
    JsonValue::Object(members.into_iter().map(|(k, v)| (k.to_string(), v)).collect())
}

#[test]
fn temp_pref_reads_strings_then_bools() {
    let pref = |v: JsonValue| TempPref::from_options(Some(&obj(vec![("show_temp", v)])));
    assert_eq!(TempPref::from_options(None), TempPref::Auto);
    assert_eq!(pref(JsonValue::Str("off".into())), TempPref::Off);
    assert_eq!(pref(JsonValue::Str("false".into())), TempPref::Off);
    assert_eq!(pref(JsonValue::Str("on".into())), TempPref::On);
    assert_eq!(pref(JsonValue::Str("true".into())), TempPref::On);
    assert_eq!(pref(JsonValue::Str("auto".into())), TempPref::Auto);
    assert_eq!(pref(JsonValue::Str("weird".into())), TempPref::Auto);
    assert_eq!(pref(JsonValue::Bool(false)), TempPref::Off);
    assert_eq!(pref(JsonValue::Bool(true)), TempPref::On);
    assert_eq!(pref(JsonValue::Number), TempPref::Auto);
}

#[test]
fn temperatures_are_never_fabricated() {
    assert!(!temp_cells_on(TempPref::On, false));
    assert!(temp_cells_on(TempPref::Auto, true));
    assert!(!temp_cells_on(TempPref::Off, true));
    assert!(freq_cells_on(true, true));
    assert!(!freq_cells_on(true, false));
}

#[test]
fn extras_yield_temperature_first_then_frequency() {
    assert_eq!(fit_extras(30, 10, true, true), (true, true));
    assert_eq!(fit_extras(25, 10, true, true), (true, false));
    assert_eq!(fit_extras(20, 10, true, true), (false, false));
    assert_eq!(fit_extras(20, 10, false, true), (false, true));
    assert_eq!(fit_extras(19, 10, false, true), (false, false));
    assert_eq!(fit_extras(5, 10, false, false), (false, false));
}

#[test]
fn labels_are_as_wide_as_the_widest_core() {
    assert_eq!(cpu_label_width(&vec![]), 4);
    assert_eq!(cpu_label_width(&vec![0, 1, 2]), 4);
    assert_eq!(cpu_label_width(&vec![0, 10, 100, 3]), 6);
    assert_eq!(cpu_label_cell(7, 5), "CPU7 ");
    assert_eq!(cpu_label_cell(12, 3), "CPU12");
}

#[test]
fn wide_boxes_use_two_columns_and_leave_rows_to_the_history() {
    let g = cpu_grid(8, 4, 60, 10, false, false);
    assert_eq!(g.prefix_w, 10);
    assert_eq!(g.cols, 2);
    assert_eq!(g.gutter, 1);
    assert_eq!(g.col_w, 29);
    assert_eq!(g.rows_per_col, 4);
    assert_eq!(g.shown_rows, 8);
    assert_eq!(g.leftover, 6);
    let c = cpu_row_cells(g, 1, 1, 60, 10, 4, 5, 3, 7, 3);
    assert_eq!((c.x0, c.y, c.col_end), (31, 2, 60));
    assert_eq!((c.x_pct, c.x_bar, c.bar_w), (37, 41, 19));
}

#[test]
fn narrow_boxes_use_one_column_and_clip_rows() {
    let g = cpu_grid(8, 4, 20, 3, true, true);
    assert_eq!(g.cols, 1);
    assert_eq!(g.col_w, 20);
    assert_eq!((g.use_freq, g.use_temp), (false, false));
    assert_eq!(g.rows_per_col, 3);
    assert_eq!(g.shown_rows, 3);
    assert_eq!(g.leftover, 0);
    let c = cpu_row_cells(g, 0, 0, 20, 3, 4, 2, 4, 7, 3);
    assert_eq!((c.x0, c.y, c.x_bar, c.bar_w), (0, 2, 10, 10));
}

#[test]
fn row_cells_keep_the_bar_inside_its_column() {
    for width in 1..120u16 {
        for count in 1..20usize {
            let g = cpu_grid(count, 5, width, 12, true, true);
            for i in 0..g.shown_rows {
                let c = cpu_row_cells(g, 2, 1, width, 12, 5, i, 4, 7, 4);
                assert!(c.col_end <= 2 + width);
                if c.bar_w > 0 {
                    let reserved = if g.use_temp { 6 } else { 0 };
                    assert_eq!(c.x_bar + c.bar_w + reserved, c.col_end);
                }
                if g.use_temp || g.use_freq {
                    assert!(c.bar_w >= 4);
                }
            }
        }
    }
}

#[test]
fn unified_row_lays_out_only_present_segments() {
    assert_eq!(unify_chunk(70), 8);
    assert_eq!(unify_chunk(50), 6);
    assert_eq!(unify_chunk(38), 4);
    assert_eq!(unify_chunk(37), 0);
    assert_eq!(unified_row(0, 70, 80, 3, None, None), UnifyPlan::Classic { bar_x: 9, bar_w: 61 });
    match unified_row(0, 70, 80, 3, Some(4), Some(5)) {
        UnifyPlan::Tokens { chunk, usage, temp, power } => {
            assert_eq!(chunk, 8);
            assert_eq!((usage.label_x, usage.value_x, usage.bar_x, usage.bar_w), (Some(0), Some(5), 8, 8));
            let temp = temp.unwrap();
            assert_eq!((temp.label_x, temp.value_x, temp.bar_x, temp.cursor), (Some(18), Some(22), 26, 34));
            let power = power.unwrap();
            assert_eq!((power.label_x, power.value_x, power.bar_x, power.cursor), (Some(36), Some(41), 46, 54));
        }
        other => panic!("{other:?}"),
    }
    match unified_row(0, 20, 80, 3, Some(4), Some(5)) {
        UnifyPlan::Tokens { chunk, usage, temp, power } => {
            assert_eq!(chunk, 0);
            assert_eq!(usage.cursor, 8);
            assert_eq!(temp.unwrap().cursor, 18);
            let power = power.unwrap();
            assert_eq!(power.label_x, None);
            assert_eq!(power.bar_w, 0);
        }
        other => panic!("{other:?}"),
    }
    match unified_row(0, 70, 80, 3, None, Some(5)) {
        UnifyPlan::Tokens { temp, power, .. } => {
            assert!(temp.is_none());
            assert!(power.is_some());
        }
        other => panic!("{other:?}"),
    }
}

#[test]
fn token_texts_clip_at_the_buffer_edge() {
    let t = token_segment(0, 10, 40, 12, 5, 3, 4);
    assert_eq!((t.label_x, t.value_x, t.bar_x, t.bar_w, t.cursor), (Some(12), Some(12), 12, 4, 16));
    let t = token_segment(0, 0, 40, 80, 5, 3, 4);
    assert_eq!((t.label_x, t.value_x, t.bar_x, t.bar_w, t.cursor), (Some(0), Some(5), 8, 4, 12));
}

#[test]
fn tail_rows_host_unified_row_history_or_summary() {
    assert_eq!(cpu_tail(5, 3, 40, true), CpuTail::UnifiedAndHistory { unify_y: 5, history_rows: 2 });
    assert_eq!(cpu_tail(5, 1, 40, true), CpuTail::History { rows: 1 });
    assert_eq!(cpu_tail(5, 3, 11, true), CpuTail::Summary { y: 5 });
    assert_eq!(cpu_tail(5, 3, 40, false), CpuTail::Summary { y: 5 });
    assert_eq!(cpu_tail(5, 0, 40, true), CpuTail::Nothing);
    assert!(history_label_fits(15));
    assert!(!history_label_fits(14));
}

#[test]
fn title_carries_the_model_and_the_max_temp() {
    assert_eq!(
        cpu_title("CPU", Some("AMD Ryzen 7 5800X"), Some("48"), Some("47.5"), 80),
        "CPU (AMD Ryzen 7 5800X) — Max 48°C"
    );
    assert_eq!(cpu_title("CPU", None, Some("48"), Some("47.5"), 80), "CPU (Max: 47.5°C)");
    assert_eq!(
        cpu_title("CPU BLOCKS", Some("AMD Ryzen 7 5800X"), Some("48"), Some("47.5"), 80),
        "CPU BLOCKS (AMD Ryzen 7 5800X) — Max 48°C"
    );
    assert_eq!(cpu_title("CPU", None, None, None, 80), "CPU");
    let long = "X".repeat(60);
    let t = cpu_title("CPU", Some(&long), None, None, 200);
    assert_eq!(t, format!("CPU ({}…)", "X".repeat(43)));
    assert_eq!(cpu_title("CPU", Some("AMD Ryzen 7 5800X"), None, None, 14), "CPU (AMD …");
    assert_eq!(cpu_title("CPU", Some("AMD Ryzen 7 5800X"), None, None, 5).chars().count(), 8);
}

#[test]
fn summary_line_counts_shown_cores_and_power() {
    assert_eq!(cpu_summary_line(2, 8, "42", Some("38.4")), "Cores: 2/8  Avg: 42%  Pkg 38.4W");
    assert_eq!(cpu_summary_line(8, 8, "42", None), "Avg: 42%");
}
