use xtop_widgets::summary::{
    classify_state, clip_run, gauge_cells, procs_segments, state_buckets, summary_plan,
    uptime_parts, GaugeSide, ProcsPart, StateBucket, SummaryTail,
};

fn states(v: &[&str]) -> Vec<String> {
    v.iter().map(|x| x.to_string()).collect()
}

fn procs_row(states: &[String], width: u16) -> String {
    let buckets = state_buckets(&states.to_vec());
    let segs: Vec<String> = procs_segments(states.len(), &buckets).into_iter().map(|(t, _)| t).collect();
    clip_run(0, width, &segs).into_iter().map(|(_, t)| t).collect::<Vec<_>>().join("")
}

#[test]
fn ux8_summary_process_states_count_buckets() {
    let text = procs_row(&states(&["Run", "Sleep", "Zombie", "DiskSleep"]), 58);
    assert!(text.contains("Procs 4"), "total: {text}");
    assert!(text.contains("Run 1"), "running count: {text}");
    assert!(text.contains("Sleep 2"), "sleeping buckets: {text}");
    assert!(text.contains("Zombie 1"), "zombie count: {text}");
    // Unusable (empty) states degrade to the plain total.
    let text2 = procs_row(&states(&[""]), 58);
    assert!(text2.contains("Procs 1"), "plain total: {text2}");
    assert!(!text2.contains("Run 0"), "no zero buckets: {text2}");
}

#[test]
fn state_strings_fold_case_and_whitespace() {
    assert_eq!(classify_state("  RUNNING "), Some(StateBucket::Run));
    assert_eq!(classify_state("S (sleeping)"), Some(StateBucket::Sleep));
    assert_eq!(classify_state("slp"), Some(StateBucket::Sleep));
    assert_eq!(classify_state("Zombie"), Some(StateBucket::Zombie));
    assert_eq!(classify_state("idle"), Some(StateBucket::Idle));
    assert_eq!(classify_state("Tracing stop"), Some(StateBucket::Stop));
    assert_eq!(classify_state("Traced"), Some(StateBucket::Stop));
    assert_eq!(classify_state("Dead"), Some(StateBucket::Other));
    assert_eq!(classify_state("   "), None);
    assert_eq!(classify_state(""), None);
}

#[test]
fn buckets_list_all_six_counts_in_row_order() {
    let b = state_buckets(&states(&["Run", "Sleep", "Zombie", "DiskSleep", "", "Stopped", "?"]));
    assert_eq!(
        b,
        vec![
            (StateBucket::Run, 1),
            (StateBucket::Sleep, 2),
            (StateBucket::Zombie, 1),
            (StateBucket::Idle, 0),
            (StateBucket::Stop, 1),
            (StateBucket::Other, 1),
        ]
    );
    assert!(state_buckets(&states(&["", " "])).is_empty());
    assert!(state_buckets(&vec![]).is_empty());
    assert_eq!(StateBucket::Zombie.label(), "Zombie");
}

#[test]
fn procs_segments_skip_empty_buckets() {
    let b = state_buckets(&states(&["Run", "Run", "Sleep"]));
    let segs = procs_segments(3, &b);
    let texts: Vec<&str> = segs.iter().map(|(t, _)| t.as_str()).collect();
    assert_eq!(texts, vec!["Procs 3", " Run ", "2", " Sleep ", "1"]);
    assert_eq!(segs[2].1, ProcsPart::Count(StateBucket::Run));
    assert_eq!(segs[3].1, ProcsPart::Label(StateBucket::Sleep));
}

#[test]
fn clipped_rows_stop_at_the_row_end() {
    let segs = states(&["Procs 264", " Run ", "2", " Zombie ", "1"]);
    let placed = clip_run(2, 20, &segs);
    assert_eq!(
        placed,
        vec![(2, "Procs 264".to_string()), (11, " Run ".to_string()), (16, "2".to_string()), (17, " Z…".to_string())]
    );
    assert!(clip_run(5, 5, &segs).is_empty());
}

#[test]
fn uptime_row_splits_label_and_value() {
    assert_eq!(uptime_parts(26829, 40), ("Uptime".to_string(), "0d 7h 27m 9s".to_string()));
    assert_eq!(uptime_parts(26829, 10), ("Uptime".to_string(), "0d…".to_string()));
    assert_eq!(uptime_parts(26829, 7), (String::new(), "Uptime…".to_string()));
    assert_eq!(uptime_parts(26829, 0), (String::new(), String::new()));
}

#[test]
fn gauge_rows_keep_six_bar_cells_before_a_side_text() {
    let g = gauge_cells(0, 40, "Mem", "42%", Some("7.3/93.8 GB"), None);
    assert_eq!((g.x_pct, g.bar_x, g.bar_w), (5, 9, 19));
    assert_eq!((g.side, g.side_x), (Some(GaugeSide::Detail), 29));
    let g = gauge_cells(0, 20, "CPU", "42%", None, Some("8c"));
    assert_eq!((g.side, g.side_x, g.bar_w), (Some(GaugeSide::Tail), 18, 8));
    let g = gauge_cells(0, 15, "Mem", "100%", Some("7.3/93.8 GB"), Some("8c"));
    assert_eq!((g.x_pct, g.side, g.bar_w), (4, None, 6));
}

#[test]
fn leftover_rows_host_the_chart_or_the_sparkline() {
    let p = summary_plan(0, 40, 8, 30);
    assert_eq!(p.content_rows, 5);
    assert_eq!(p.tail, SummaryTail::Chart { rows: 3 });
    assert_eq!(summary_plan(0, 40, 6, 30).tail, SummaryTail::Spark { x: 19, width: 21 });
    assert_eq!(summary_plan(0, 60, 6, 30).tail, SummaryTail::Spark { x: 36, width: 24 });
    assert_eq!(summary_plan(0, 40, 5, 30).tail, SummaryTail::Nothing);
    assert_eq!(summary_plan(0, 25, 6, 30).tail, SummaryTail::Nothing);
    assert_eq!(summary_plan(0, 40, 8, 1).tail, SummaryTail::Nothing);
    assert_eq!(summary_plan(0, 40, 3, 30).content_rows, 3);
}

#[test]
fn bucket_counts_add_up_to_the_usable_states() {
    let list = states(&["running", " Sleeping ", "", "zombie", "weird", "  "]);
    let buckets = state_buckets(&list);
    let total: usize = buckets.iter().map(|(_, n)| n).sum();
    let usable = list.iter().filter(|s| classify_state(s).is_some()).count();
    assert_eq!(usable, 4);
    assert_eq!(total, usable);
    assert!(total <= list.len());
}
