use xtop_widgets::options::JsonValue;
use xtop_widgets::processes::{
    column_toggles, command_text, cpu_mode, fixed_cost, folded_match, header_cells, layout_columns, name_highlight,
    pick_layout, process_title, scrollbar_thumb, separators, sorted_column, user_text, user_uid,
    window_start, zebra_rows, Column, CpuColumns, Segment,
};

fn obj(members: Vec<(&str, JsonValue)>) -> JsonValue {
    JsonValue::Object(members.into_iter().map(|(k, v)| (k.to_string(), v)).collect())
}

#[test]
fn processes_window_start_keeps_selection_visible() {
    assert_eq!(window_start(0, 200, 20), 0);
    assert_eq!(window_start(3, 200, 20), 0);
    assert_eq!(window_start(100, 200, 20), 90);
    assert_eq!(window_start(50, 200, 20), 40);
    assert_eq!(window_start(199, 200, 20), 180);
    assert_eq!(window_start(195, 200, 20), 180);
    assert_eq!(window_start(7, 10, 20), 0);
    assert_eq!(window_start(0, 0, 20), 0);
}

#[test]
fn window_always_contains_the_selection() {
    for n in 1..60usize {
        for view_h in 1..25usize {
            for sel in 0..n {
                let start = window_start(sel, n, view_h);
                assert!(start <= sel && sel < start + view_h, "{sel} {n} {view_h}");
                assert!(n <= view_h || start + view_h <= n);
            }
        }
    }
}

#[test]
fn full_row_lays_out_every_column() {
    let cols = pick_layout(CpuColumns::Core, true, true, true, 100).unwrap();
    assert_eq!(
        cols,
        vec![
            (Column::Pid, 7),
            (Column::Name, 19),
            (Column::Spark, 4),
            (Column::CpuCore, 6),
            (Column::Mem, 10),
            (Column::User, 9),
            (Column::Command, 39),
        ]
    );
    let (segs, spark) = layout_columns(CpuColumns::Core, true, true, true, 0, 100);
    assert_eq!(spark, 4);
    let xs: Vec<u16> = segs.iter().map(|s| s.x).collect();
    assert_eq!(xs, vec![0, 8, 28, 33, 40, 51, 61]);
    let last = segs.last().unwrap();
    assert_eq!(last.x + last.width, 100);
}

#[test]
fn narrow_rows_drop_columns_right_to_left() {
    assert_eq!(
        pick_layout(CpuColumns::Core, true, true, true, 18).unwrap(),
        vec![(Column::Pid, 7), (Column::CpuCore, 6)]
    );
    assert_eq!(pick_layout(CpuColumns::Core, true, true, true, 7).unwrap(), vec![(Column::Pid, 7)]);
    assert_eq!(pick_layout(CpuColumns::Core, true, true, true, 6), None);
    // Toggled-off columns never appear.
    let cols = pick_layout(CpuColumns::Total, false, false, true, 100).unwrap();
    assert!(cols.iter().all(|(c, _)| *c != Column::Mem && *c != Column::User));
    assert!(cols.iter().any(|(c, _)| *c == Column::CpuTotal));
    // Both bases show two cpu columns when there is room.
    let both = pick_layout(CpuColumns::Both, true, true, true, 120).unwrap();
    assert!(both.iter().any(|(c, _)| *c == Column::CpuCore));
    assert!(both.iter().any(|(c, _)| *c == Column::CpuTotal));
}

#[test]
fn layout_never_exceeds_the_row() {
    for w in 0..200u16 {
        for mode in [CpuColumns::Core, CpuColumns::Total, CpuColumns::Both] {
            let (segs, _) = layout_columns(mode, true, true, true, 3, w);
            if let Some(last) = segs.last() {
                assert!(last.x + last.width <= 3 + w, "{w}");
                assert!(segs.iter().any(|s| s.col == Column::Pid));
            }
        }
    }
}

#[test]
fn scrollbar_thumb_stays_on_its_track() {
    assert_eq!(scrollbar_thumb(90, 200, 20), (9, 11));
    assert_eq!(scrollbar_thumb(0, 200, 20), (0, 2));
    assert_eq!(scrollbar_thumb(180, 200, 20), (18, 20));
}

#[test]
fn sort_marker_goes_to_the_sorted_column() {
    assert_eq!(sorted_column("PID", CpuColumns::Core, true), Some(Column::Pid));
    assert_eq!(sorted_column("CPU%", CpuColumns::Both, true), Some(Column::CpuCore));
    assert_eq!(sorted_column("CPU%", CpuColumns::Total, true), Some(Column::CpuTotal));
    assert_eq!(sorted_column("Mem", CpuColumns::Core, false), None);
    assert_eq!(sorted_column("Mem", CpuColumns::Core, true), Some(Column::Mem));
    assert_eq!(sorted_column("Other", CpuColumns::Core, true), None);
}

#[test]
fn header_cells_right_align_labels_and_mark_only_the_sorted_cell() {
    let (segs, _) = layout_columns(CpuColumns::Core, true, true, true, 0, 100);
    let cells = header_cells(&segs, CpuColumns::Core, Some(Column::CpuCore), true);
    assert_eq!(cells[0], (4, "PID".to_string()));
    assert_eq!(cells[1], (8 + 15, "Name".to_string()));
    assert_eq!(cells[2], (29, "cpu".to_string()));
    assert_eq!(cells[3], (33, "CPU% ▼".to_string()));
    assert_eq!(cells.iter().filter(|(_, t)| t.contains('▼')).count(), 1);
    // A two-cell spark column drops its caption.
    let narrow = vec![Segment { col: Column::Spark, x: 5, width: 2 }];
    assert_eq!(header_cells(&narrow, CpuColumns::Core, None, false)[0], (7, String::new()));
    assert_eq!(separators(&segs, 100), vec![7, 27, 32, 39, 50, 60]);
    assert_eq!(separators(&segs, 40), vec![7, 27, 32, 39]);
}

#[test]
fn search_highlight_is_case_folded() {
    assert_eq!(name_highlight("FireFox", "fox"), Some((4, 7)));
    assert_eq!(name_highlight("firefox", "FIRE"), Some((0, 4)));
    assert_eq!(name_highlight("firefox", ""), None);
    assert_eq!(name_highlight("abc", "xyz"), None);
}

#[test]
fn ux9_command_column_falls_back_cmd_then_exe_then_question_mark() {
    let full = vec!["/usr/bin/app".to_string(), "--flag".to_string()];
    assert_eq!(command_text(&full, "app", Some("/usr/bin/app")), "/usr/bin/app --flag");
    assert_eq!(command_text(&vec![], "app", Some("/usr/bin/app")), "app");
    assert_eq!(command_text(&vec![], "", Some("/x")), "/x");
    assert_eq!(command_text(&vec![], "", None), "?");
}

#[test]
fn user_cell_resolves_numeric_ids_only() {
    assert_eq!(user_uid("1000"), Some(1000));
    assert_eq!(user_uid("S-1-5-18"), None);
    assert_eq!(user_text(Some("1000"), Some("alice")), "alice");
    assert_eq!(user_text(Some("1000"), None), "1000");
    assert_eq!(user_text(Some("S-1-5-18"), Some("x")), "S-1-5-18");
    assert_eq!(user_text(None, Some("x")), "?");
}

#[test]
fn title_carries_filter_or_sort_direction() {
    assert_eq!(process_title("", "", "CPU%", true), "Processes (sort: CPU% ▼)");
    assert_eq!(process_title("", "", "PID", false), "Processes (sort: PID ▲)");
    assert_eq!(process_title("", "fire", "CPU%", true), "Processes (filter: fire)");
    assert_eq!(process_title("blocks, ", "", "Mem", false), "Processes (blocks, sort: Mem ▲)");
    assert_eq!(process_title("blocks, ", "fire", "Mem", false), "Processes (blocks, filter: fire)");
}

#[test]
fn column_options_default_on() {
    assert_eq!(column_toggles(None), (true, true, true));
    let cols = obj(vec![("columns", obj(vec![("memory", JsonValue::Bool(false))]))]);
    assert_eq!(column_toggles(Some(&cols)), (false, true, true));
    let bad = obj(vec![("columns", JsonValue::Bool(false))]);
    assert_eq!(column_toggles(Some(&bad)), (true, true, true));
    assert!(zebra_rows(None));
    assert!(!zebra_rows(Some(&obj(vec![("zebra", JsonValue::Bool(false))]))));
    assert_eq!(cpu_mode(None), CpuColumns::Core);
    assert_eq!(
        cpu_mode(Some(&obj(vec![("cpu", JsonValue::Str("both".to_string()))]))),
        CpuColumns::Both
    );
}

#[test]
fn wider_boxes_never_lose_columns() {
    for mode in [CpuColumns::Core, CpuColumns::Total] {
        let mut prev = 0;
        for w in 1..140u16 {
            let (segs, _) = layout_columns(mode, true, true, true, 0, w);
            assert!(segs.len() >= prev, "{w}: {} < {prev}", segs.len());
            prev = segs.len();
        }
    }
}

#[test]
fn pick_layout_fills_the_width_with_pid_first() {
    for mode in [CpuColumns::Core, CpuColumns::Total, CpuColumns::Both] {
        for w in 0u16..140 {
            match pick_layout(mode, true, true, true, w) {
                None => assert!(w < 7),
                Some(cols) => {
                    assert!(w >= 7);
                    assert_eq!(cols[0], (Column::Pid, 7));
                    let span: usize = cols.iter().map(|c| c.1 as usize).sum::<usize>() + cols.len() - 1;
                    assert!(span <= w as usize);
                    if cols.iter().any(|c| c.0 == Column::Name) {
                        assert_eq!(span, w as usize);
                    }
                }
            }
        }
    }
}

#[test]
fn layout_columns_segments_touch_and_spark_width_matches() {
    for w in 0u16..140 {
        let (segs, spark) = layout_columns(CpuColumns::Both, true, true, true, 5, w);
        assert_eq!(segs.is_empty(), w < 7);
        if let Some(first) = segs.first() {
            assert_eq!(*first, Segment { col: Column::Pid, x: 5, width: 7 });
        }
        for pair in segs.windows(2) {
            assert_eq!(pair[1].x, pair[0].x + pair[0].width + 1);
        }
        match segs.iter().find(|s| s.col == Column::Spark) {
            Some(s) => assert_eq!(s.width, spark),
            None => assert_eq!(spark, 0),
        }
    }
}

#[test]
fn folded_match_finds_the_folded_query() {
    assert_eq!(folded_match("FireFox", "fox", "firefox", "fox"), Some((4, 7)));
    assert_eq!(folded_match("FireFox", "cat", "firefox", "cat"), None);
    assert_eq!(folded_match("FireFox", "", "firefox", ""), None);
    // A fold that changes the byte length gives no range.
    assert_eq!(folded_match("İx", "x", "i̇x", "x"), None);
}

#[test]
fn pick_layout_takes_the_widest_row() {
    let cols = pick_layout(CpuColumns::Both, true, true, true, 65535).unwrap();
    assert_eq!(cols[0], (Column::Pid, 7));
    let span: usize = cols.iter().map(|c| c.1 as usize).sum::<usize>() + cols.len() - 1;
    assert_eq!(span, 65535);
    let (segs, _) = layout_columns(CpuColumns::Core, true, true, true, 35, 65500);
    let last = segs.last().unwrap();
    assert_eq!(last.x as usize + last.width as usize, 65535);
}

#[test]
fn fixed_cost_counts_widths_and_separators() {
    assert_eq!(fixed_cost(&vec![]), 0);
    assert_eq!(fixed_cost(&vec![Column::Pid, Column::Name, Column::CpuCore]), 7 + 6 + 2);
    assert_eq!(fixed_cost(&vec![Column::Mem; 100]), 100 * 10 + 99);
}
