use xtop_widgets::options::JsonValue;
use xtop_widgets::processes::{
    column_toggles, command_text, header_cells, layout_columns, name_highlight, process_title,
    scrollbar_thumb, sorted_column, user_text, user_uid, window_start, Column, CpuColumns, Segment,
};
use xtop_widgets::text::truncate_chars;

// An 80x24 terminal leaves a 78-column, 22-row inner area inside the frame
// (x from 1); a 20x10 one leaves 18 columns.

fn obj(members: Vec<(&str, JsonValue)>) -> JsonValue {
    JsonValue::Object(members.into_iter().map(|(k, v)| (k.to_string(), v)).collect())
}

fn cols(segs: &[Segment]) -> Vec<Column> {
    segs.iter().map(|s| s.col).collect()
}

fn header(mode: CpuColumns, show: (bool, bool, bool), width: u16, sort: &str, desc: bool) -> Vec<String> {
    let (segs, _) = layout_columns(mode, show.0, show.1, show.2, 1, width);
    let sorted = sorted_column(sort, mode, show.0);
    header_cells(&segs, mode, sorted, desc).into_iter().map(|(_, t)| t).collect()
}

#[test]
fn processes_narrow_boxes_show_pid_and_cpu_only() {
    let (segs, _) = layout_columns(CpuColumns::Core, true, true, true, 1, 18);
    assert_eq!(cols(&segs), vec![Column::Pid, Column::CpuCore]);
    assert_eq!(format!("{:.1}%", 12.5), "12.5%");
}

#[test]
fn processes_name_column_is_always_present_when_it_fits() {
    let (segs, _) = layout_columns(CpuColumns::Core, true, true, true, 1, 78);
    assert!(cols(&segs).contains(&Column::Name));
    assert!(header(CpuColumns::Core, (true, true, true), 78, "CPU%", true).contains(&"Name".to_string()));
}

#[test]
fn processes_columns_toggles_hide_mem_and_user() {
    let opts = obj(vec![(
        "columns",
        obj(vec![("memory", JsonValue::Bool(false)), ("user", JsonValue::Bool(false))]),
    )]);
    let toggles = column_toggles(Some(&opts));
    assert_eq!(toggles, (false, false, true));
    let (segs, _) = layout_columns(CpuColumns::Core, toggles.0, toggles.1, toggles.2, 1, 78);
    let c = cols(&segs);
    assert!(c.contains(&Column::Name));
    assert!(!c.contains(&Column::Mem) && !c.contains(&Column::User));
}

#[test]
fn processes_sort_marker_sits_only_in_the_sorted_header_cell() {
    let desc = header(CpuColumns::Core, (true, true, true), 78, "CPU%", true);
    assert_eq!(desc.iter().filter(|t| t.contains('▼')).count(), 1);
    assert!(desc.iter().any(|t| t == "CPU% ▼"));
    assert!(!desc.iter().any(|t| t.contains('▲')));
    let asc = header(CpuColumns::Core, (true, true, true), 78, "CPU%", false);
    assert!(asc.iter().any(|t| t == "CPU% ▲"));
}

#[test]
fn processes_title_carries_direction_always() {
    assert!(process_title("", "", "CPU%", false).contains("(sort: CPU% ▲)"));
    assert!(process_title("", "", "CPU%", true).contains("(sort: CPU% ▼)"));
}

#[test]
fn processes_search_highlight_paints_the_match() {
    assert_eq!(process_title("", "PROC", "CPU%", true), "Processes (filter: PROC)");
    assert_eq!(name_highlight("proc-1", "PROC"), Some((0, 4)));
}

#[test]
fn processes_name_truncation_appends_ellipsis() {
    let (segs, _) = layout_columns(CpuColumns::Core, true, true, true, 1, 78);
    let name = segs.iter().find(|s| s.col == Column::Name).unwrap();
    let shown = truncate_chars(&"x".repeat(90), name.width as usize);
    assert!(shown.ends_with('…'));
    assert_eq!(shown.chars().count(), name.width as usize);
}

#[test]
fn processes_viewport_scrolls_through_the_full_list() {
    // 60 processes in an 80x30 box: 28 inner rows, 27 below the header.
    let view_h = 27;
    let start = window_start(59, 60, view_h);
    let shown: Vec<usize> = (start..(start + view_h).min(60)).collect();
    assert!(shown.contains(&59));
    assert!(!shown.contains(&0));
    assert!(shown.contains(&46));
    let (top, bottom) = scrollbar_thumb(start, 60, view_h);
    assert!(top <= bottom && bottom <= view_h);
    assert_eq!(bottom, view_h);
}

#[test]
fn ux9_user_column_resolves_login_names_via_uid_to_name() {
    assert_eq!(user_uid("1000"), Some(1000));
    assert_eq!(user_text(Some("1000"), Some("xscriptor")), "xscriptor");
    assert_eq!(user_text(Some("1000"), None), "1000");
}

#[test]
fn ux9_user_column_keeps_unparsable_ids_verbatim() {
    assert_eq!(user_uid("daemon-ish"), None);
    assert_eq!(user_text(Some("daemon-ish"), None), "daemon-ish");
}

#[test]
fn ux9_command_column_shows_the_full_command_line() {
    let argv = vec!["/usr/bin/proc-4".to_string(), "--serve".to_string(), "host:8080".to_string()];
    assert_eq!(command_text(&argv, "proc-4", Some("/usr/bin/proc-4")), "/usr/bin/proc-4 --serve host:8080");
}

#[test]
fn ux9_command_column_truncates_and_can_be_hidden() {
    let (segs, _) = layout_columns(CpuColumns::Core, true, true, true, 1, 78);
    let cmd = segs.iter().find(|s| s.col == Column::Command).unwrap();
    let shown = truncate_chars(&command_text(&vec!["x".repeat(120)], "proc-4", None), cmd.width as usize);
    assert!(shown.ends_with('…'));
    let last = segs.last().unwrap();
    assert!(last.x + last.width <= 79);
    let hidden = column_toggles(Some(&obj(vec![("columns", obj(vec![("cmd", JsonValue::Bool(false))]))])));
    let (segs, _) = layout_columns(CpuColumns::Core, hidden.0, hidden.1, hidden.2, 1, 78);
    assert!(!cols(&segs).contains(&Column::Command));
}

#[test]
fn ux9_header_lists_all_columns_and_the_spark_caption() {
    let cells = header(CpuColumns::Core, (true, true, true), 98, "CPU%", true);
    let line = cells.join("|");
    for label in ["PID", "Name", "cpu", "CPU%", "Mem", "User", "Command"] {
        assert!(line.contains(label), "header label {label}: {line}");
    }
}
