use xtop_widgets::core_spec::parse_core_spec;
use xtop_widgets::glyph::{resolved_borders, resolved_charset, ChartCharset, WidgetBorders};
use xtop_widgets::options::{
    all_or_names, boolean, core_selection, name_list, resolve_named, select_by_names, string,
    CoreSelection, CpuChart, JsonValue,
};

fn s(v: &str) -> JsonValue {
    JsonValue::Str(v.to_string())
}

fn obj(members: Vec<(&str, JsonValue)>) -> JsonValue {
    JsonValue::Object(members.into_iter().map(|(k, v)| (k.to_string(), v)).collect())
}

fn names(v: &[&str]) -> Vec<String> {
    v.iter().map(|x| x.to_string()).collect()
}

#[test]
fn string_and_boolean_ignore_wrong_types() {
    let opts = obj(vec![("s", s("x")), ("b", JsonValue::Bool(true)), ("n", JsonValue::Number)]);
    assert_eq!(string(&opts, "s"), Some("x"));
    assert_eq!(string(&opts, "b"), None);
    assert_eq!(string(&opts, "missing"), None);
    assert_eq!(boolean(&opts, "b"), Some(true));
    assert_eq!(boolean(&opts, "n"), None);
    assert_eq!(boolean(&opts, "missing"), None);
}

#[test]
fn name_list_only_accepts_arrays_of_strings() {
    assert_eq!(
        name_list(&obj(vec![("l", JsonValue::Array(vec![s("a"), s("b")]))]), "l"),
        Some(vec!["a".to_owned(), "b".to_owned()])
    );
    assert_eq!(
        name_list(&obj(vec![("l", JsonValue::Array(vec![s("a"), JsonValue::Number]))]), "l"),
        Some(vec!["a".to_owned()])
    );
    assert_eq!(name_list(&obj(vec![("l", s("all"))]), "l"), None);
    assert_eq!(name_list(&obj(vec![]), "l"), None);
}

#[test]
fn core_spec_parses_ranges_and_dedups() {
    assert_eq!(parse_core_spec("0,2,4-7"), Some(vec![0, 2, 4, 5, 6, 7]));
    assert_eq!(parse_core_spec("7-7"), Some(vec![7]));
    assert_eq!(parse_core_spec("4,4,4"), Some(vec![4]));
    assert_eq!(parse_core_spec("7-4"), None);
    assert_eq!(parse_core_spec("0,x"), None);
    assert_eq!(parse_core_spec("0,"), None);
    assert_eq!(parse_core_spec(""), None);
    assert_eq!(parse_core_spec("all"), None);
}

#[test]
fn core_selection_maps_all_and_specs() {
    assert_eq!(core_selection(&obj(vec![]), "cores"), CoreSelection::All);
    assert_eq!(core_selection(&obj(vec![("cores", s("all"))]), "cores"), CoreSelection::All);
    assert_eq!(
        core_selection(&obj(vec![("cores", s("0,2-3"))]), "cores"),
        CoreSelection::Ids(vec![0, 2, 3])
    );
    // Malformed spec falls back to "all" (never break rendering).
    assert_eq!(core_selection(&obj(vec![("cores", s("nope"))]), "cores"), CoreSelection::All);
}

#[test]
fn cpu_chart_falls_back_to_average() {
    assert_eq!(CpuChart::from_options(None, "chart"), CpuChart::Average);
    assert_eq!(CpuChart::from_options(Some(&obj(vec![])), "chart"), CpuChart::Average);
    assert_eq!(
        CpuChart::from_options(Some(&obj(vec![("chart", s("average"))])), "chart"),
        CpuChart::Average
    );
    assert_eq!(
        CpuChart::from_options(Some(&obj(vec![("chart", s("per-core"))])), "chart"),
        CpuChart::PerCore
    );
    assert_eq!(
        CpuChart::from_options(Some(&obj(vec![("chart", JsonValue::Number)])), "chart"),
        CpuChart::Average
    );
}

#[test]
fn core_spec_ranges_accept_spaces_and_plus_signs() {
    assert_eq!(parse_core_spec(" 1 , 3-4 "), Some(vec![1, 3, 4]));
    assert_eq!(parse_core_spec("5,1-2,1"), Some(vec![1, 2, 5]));
    assert_eq!(parse_core_spec("-1"), None);
    assert_eq!(parse_core_spec("+3"), Some(vec![3]));
}

#[test]
fn core_subset_resolves_ascending_by_id_and_never_goes_blank() {
    let cpu_ids = vec![0usize, 1, 2, 3, 4, 5, 6, 7];
    assert_eq!(CoreSelection::All.resolve(&cpu_ids), vec![0, 1, 2, 3, 4, 5, 6, 7]);
    assert_eq!(CoreSelection::Ids(vec![0, 2, 4]).resolve(&cpu_ids), vec![0, 2, 4]);
    // Ids the snapshot does not carry are skipped; none matching shows all.
    assert_eq!(CoreSelection::Ids(vec![2, 9]).resolve(&cpu_ids), vec![2]);
    assert_eq!(CoreSelection::Ids(vec![42]).resolve(&cpu_ids), cpu_ids.clone());
    // The indices of the cores carrying the ids, ascending by id (snapshot
    // order may differ).
    let shuffled = vec![3usize, 1, 2];
    assert_eq!(CoreSelection::Ids(vec![1, 3]).resolve(&shuffled), vec![1, 0]);
    assert_eq!(CoreSelection::Ids(vec![3, 1]).resolve(&shuffled), vec![1, 0]);
    // Ids given out of order still come out ascending, and each core once.
    let three = vec![0usize, 1, 2];
    assert_eq!(CoreSelection::Ids(vec![2, 0]).resolve(&three), vec![0, 2]);
    assert_eq!(CoreSelection::Ids(vec![2, 2, 0, 2]).resolve(&three), vec![0, 2]);
}

#[test]
fn name_selection_keeps_list_order_and_falls_back_to_all() {
    let ifaces = names(&["eth0", "wlan0", "lo"]);
    assert_eq!(select_by_names(&ifaces, &names(&["lo", "eth0"])), vec![2, 0]);
    assert_eq!(select_by_names(&ifaces, &names(&["nope", "wlan0"])), vec![1]);
    assert_eq!(select_by_names(&ifaces, &names(&["nope"])), vec![0, 1, 2]);
    assert_eq!(select_by_names(&ifaces, &names(&[])), vec![0, 1, 2]);
}

#[test]
fn all_or_names_reads_the_special_value() {
    assert_eq!(all_or_names(&obj(vec![]), "ifaces"), Some(None));
    assert_eq!(all_or_names(&obj(vec![("ifaces", s("all"))]), "ifaces"), Some(None));
    assert_eq!(all_or_names(&obj(vec![("ifaces", s("eth0"))]), "ifaces"), None);
    assert_eq!(
        all_or_names(&obj(vec![("ifaces", JsonValue::Array(vec![s("eth0")]))]), "ifaces"),
        Some(Some(vec!["eth0".to_owned()]))
    );
}

#[test]
fn resolve_named_selects_by_option() {
    let disks = names(&["/", "/home", "/boot"]);
    assert_eq!(resolve_named(None, "disks", &disks), vec![0, 1, 2]);
    let pick = obj(vec![("disks", JsonValue::Array(vec![s("/home")]))]);
    assert_eq!(resolve_named(Some(&pick), "disks", &disks), vec![1]);
    let unknown = obj(vec![("disks", JsonValue::Array(vec![s("/mnt")]))]);
    assert_eq!(resolve_named(Some(&unknown), "disks", &disks), vec![0, 1, 2]);
    let malformed = obj(vec![("disks", JsonValue::Number)]);
    assert_eq!(resolve_named(Some(&malformed), "disks", &disks), vec![0, 1, 2]);
}

#[test]
fn glyph_options_override_the_configured_values() {
    let opts = obj(vec![("charset", s("block")), ("borders", s("ascii"))]);
    assert_eq!(resolved_charset(ChartCharset::Braille, Some(&opts)), ChartCharset::Block);
    assert_eq!(resolved_borders(WidgetBorders::Rounded, Some(&opts)), WidgetBorders::Ascii);
    let bad = obj(vec![("charset", s("sparkles")), ("borders", JsonValue::Bool(true))]);
    assert_eq!(resolved_charset(ChartCharset::Dot, Some(&bad)), ChartCharset::Dot);
    assert_eq!(resolved_borders(WidgetBorders::Plain, Some(&bad)), WidgetBorders::Plain);
    assert_eq!(resolved_charset(ChartCharset::HalfBlock, None), ChartCharset::HalfBlock);
    let half = obj(vec![("charset", s("half_block"))]);
    assert_eq!(resolved_charset(ChartCharset::Braille, Some(&half)), ChartCharset::HalfBlock);
}

#[test]
fn parse_core_spec_ignores_item_order() {
    assert_eq!(parse_core_spec("4-7,0,2"), parse_core_spec("0,2,4-7"));
    assert_eq!(parse_core_spec("3, 1-2"), parse_core_spec("1-2,3"));
    assert_eq!(parse_core_spec("x,1"), parse_core_spec("1,x"));
    assert_eq!(parse_core_spec("x,1"), None);
}

#[test]
fn parse_core_spec_ignores_repeated_items() {
    assert_eq!(parse_core_spec("1-3,1-3"), parse_core_spec("1-3"));
    assert_eq!(parse_core_spec("0,2,0,2"), Some(vec![0, 2]));
    assert_eq!(parse_core_spec(",,"), None);
}
