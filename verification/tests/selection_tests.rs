use xtop_widgets::memory::selected_sections;
use xtop_widgets::options::{core_selection, resolve_named, JsonValue};

fn obj(members: Vec<(&str, JsonValue)>) -> JsonValue {
    JsonValue::Object(members.into_iter().map(|(k, v)| (k.to_string(), v)).collect())
}

fn strs(v: &[&str]) -> JsonValue {
    JsonValue::Array(v.iter().map(|s| JsonValue::Str(s.to_string())).collect())
}

fn names(v: &[&str]) -> Vec<String> {
    v.iter().map(|s| s.to_string()).collect()
}

fn picked(items: &[&str], opts: &JsonValue, key: &str) -> Vec<String> {
    let all = names(items);
    resolve_named(Some(opts), key, &all).into_iter().map(|i| all[i].clone()).collect()
}

fn cores(n: usize, spec: &str) -> Vec<usize> {
    let ids: Vec<usize> = (0..n).collect();
    core_selection(&obj(vec![("cores", JsonValue::Str(spec.to_string()))]), "cores").resolve(&ids)
}

#[test]
fn network_iface_selection_restricts_rows() {
    let opts = obj(vec![("ifaces", strs(&["eth0", "wlan0"]))]);
    assert_eq!(picked(&["eth0", "wlan0", "lo"], &opts, "ifaces"), names(&["eth0", "wlan0"]));
}

#[test]
fn network_single_selection_shows_its_row_only() {
    let opts = obj(vec![("ifaces", strs(&["eth0"]))]);
    assert_eq!(picked(&["eth0", "wlan0"], &opts, "ifaces"), names(&["eth0"]));
}

#[test]
fn network_unknown_iface_names_fall_back_to_all() {
    let opts = obj(vec![("ifaces", strs(&["nope0"]))]);
    assert_eq!(picked(&["eth0", "wlan0"], &opts, "ifaces"), names(&["eth0", "wlan0"]));
}

#[test]
fn storage_disk_selection_restricts_rows() {
    let opts = obj(vec![("disks", strs(&["/", "/boot"]))]);
    assert_eq!(picked(&["/", "/home", "/boot"], &opts, "disks"), names(&["/", "/boot"]));
}

#[test]
fn storage_unknown_mounts_fall_back_to_all() {
    let opts = obj(vec![("disks", strs(&["/missing"]))]);
    assert_eq!(picked(&["/", "/home"], &opts, "disks"), names(&["/", "/home"]));
}

#[test]
fn memory_sections_can_hide_ram_or_swap() {
    let swap_only = obj(vec![("sections", strs(&["swap"]))]);
    assert_eq!(selected_sections(Some(&swap_only)), (false, false, true));
    let mem_only = obj(vec![("sections", strs(&["memory"]))]);
    assert_eq!(selected_sections(Some(&mem_only)), (true, false, false));
}

#[test]
fn cpu_cores_subset_restricts_the_drawn_rows() {
    assert_eq!(cores(8, "0,2"), vec![0, 2]);
}

#[test]
fn cpu_range_subset_parses_and_draws() {
    assert_eq!(cores(8, "4-7"), vec![4, 5, 6, 7]);
}
