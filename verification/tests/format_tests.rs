use xtop_widgets::format::{
    f64_value, format_bytes, format_bytes_short, format_uptime, format_used_free,
    format_used_over_total,
};

/// The f64 readout these helpers reproduce, written the floating-point way.
fn scale_f64(bytes: f64) -> (f64, &'static str) {
    const UNITS: &[&str] = &["B", "KB", "MB", "GB", "TB"];
    let mut size = bytes.max(0.0);
    let mut unit_idx = 0;
    while size >= 1024.0 && unit_idx < UNITS.len() - 1 {
        size /= 1024.0;
        unit_idx += 1;
    }
    (size, UNITS[unit_idx])
}

fn decimals_f64(value: f64) -> usize {
    if value == 0.0 || value >= 100.0 {
        0
    } else if value >= 10.0 {
        1
    } else {
        2
    }
}

fn oracle_bytes(bytes: u64) -> String {
    let (size, unit) = scale_f64(bytes as f64);
    format!("{:.2} {}", size, unit)
}

fn oracle_short(bytes: u64) -> String {
    let (value, unit) = scale_f64(bytes as f64);
    let decimals = decimals_f64(value);
    format!("{value:.decimals$} {unit}")
}

fn oracle_used_over_total(used: u64, total: u64) -> String {
    let (uv, uu) = scale_f64(used as f64);
    let (tv, tu) = scale_f64(total as f64);
    if uu == tu {
        let decimals = decimals_f64(tv);
        format!("{uv:.decimals$}/{tv:.decimals$} {uu}")
    } else {
        format!("{} / {}", oracle_short(used), oracle_short(total))
    }
}

fn oracle_used_free(used: u64, free: u64) -> String {
    let (uv, uu) = scale_f64(used as f64);
    let (fv, fu) = scale_f64(free as f64);
    if uu == fu {
        let decimals = if uv.max(fv) >= 100.0 { 0 } else { 1 };
        format!("used {uv:.decimals$} {uu} · free {fv:.decimals$} {fu}")
    } else {
        format!("used {} · free {}", oracle_short(used), oracle_short(free))
    }
}

fn sample_values() -> Vec<u64> {
    let mut v: Vec<u64> = vec![
        0, 1, 5, 9, 10, 99, 100, 512, 1000, 1023, 1024, 1025, 1536, 1280, 1152, 10240, 102400,
        1048575, 1048576, 5 * 1024 * 1024 + 1, 1_000_000_000, 1u64 << 40, (1u64 << 50) - 1,
        1u64 << 53, (1u64 << 53) + 1, (1u64 << 53) + 3, (1u64 << 54) + 2, (1u64 << 54) + 6,
        u64::MAX, u64::MAX - 1, u64::MAX / 3, 93 * 1024 * 1024 * 1024,
        93 * 1024 * 1024 * 1024 + 512 * 1024 * 1024,
    ];
    // Ties of the decimal rounding: k/8, k/16, k/128 of a unit.
    for k in 0..4096u64 {
        v.push(k * 128);
        v.push(k * 8 + 1024 * 1024);
        v.push(k * 1024 * 64);
    }
    let mut x: u64 = 0x9e37_79b9_7f4a_7c15;
    for _ in 0..4000 {
        x ^= x << 13;
        x ^= x >> 7;
        x ^= x << 17;
        v.push(x >> (x % 64));
    }
    v
}

#[test]
fn format_bytes_matches_the_f64_readout() {
    for b in sample_values() {
        assert_eq!(format_bytes(b), oracle_bytes(b), "bytes {b}");
        assert_eq!(format_bytes_short(b), oracle_short(b), "short {b}");
    }
}

#[test]
fn pair_formats_match_the_f64_readout() {
    let vals = sample_values();
    for (i, &a) in vals.iter().enumerate().step_by(7) {
        let b = vals[(i * 31 + 5) % vals.len()];
        assert_eq!(format_used_over_total(a, b), oracle_used_over_total(a, b), "{a} {b}");
        assert_eq!(format_used_free(a, b), oracle_used_free(a, b), "{a} {b}");
    }
}

#[test]
fn f64_value_is_the_double_conversion() {
    for b in sample_values() {
        assert_eq!(f64_value(b), (b as f64) as u128, "{b}");
    }
}

#[test]
fn short_formatting_adapts_decimals() {
    assert_eq!(format_bytes_short(93 * 1024 * 1024 * 1024), "93.0 GB");
    assert_eq!(
        format_bytes_short(93 * 1024 * 1024 * 1024 + 512 * 1024 * 1024),
        "93.5 GB"
    );
    assert_eq!(format_bytes_short(512), "512 B");
    assert_eq!(format_bytes_short(0), "0 B");
    assert_eq!(format_bytes_short(1536), "1.50 KB");
}

#[test]
fn used_over_total_shares_the_larger_decimals() {
    assert_eq!(
        format_used_over_total(50 * 1024 * 1024 * 1024, 250 * 1024 * 1024 * 1024),
        "50/250 GB"
    );
    assert_eq!(
        format_used_over_total(
            7 * 1024 * 1024 * 1024 + 300 * 1024 * 1024,
            93 * 1024 * 1024 * 1024 + 800 * 1024 * 1024
        ),
        "7.3/93.8 GB"
    );
    // Different units fall back to two sized values.
    assert_eq!(
        format_used_over_total(512 * 1024 * 1024, 2 * 1024 * 1024 * 1024),
        "512 MB / 2.00 GB"
    );
}

#[test]
fn used_free_shares_decimals_and_falls_back() {
    assert_eq!(
        format_used_free(8 * 1024 * 1024 * 1024, 7 * 1024 * 1024 * 1024),
        "used 8.0 GB · free 7.0 GB"
    );
    assert_eq!(
        format_used_free(50 * 1024 * 1024 * 1024, 200 * 1024 * 1024 * 1024),
        "used 50 GB · free 200 GB"
    );
    // Different units fall back to two sized values.
    assert_eq!(
        format_used_free(512 * 1024 * 1024, 2 * 1024 * 1024 * 1024),
        "used 512 MB · free 2.00 GB"
    );
}

#[test]
fn format_bytes_keeps_two_decimals() {
    assert_eq!(format_bytes(0), "0.00 B");
    assert_eq!(format_bytes(1024), "1.00 KB");
    assert_eq!(format_bytes(64 * 1024 * 1024), "64.00 MB");
    assert_eq!(format_bytes(u64::MAX), "16777216.00 TB");
}

#[test]
fn format_uptime_splits_days_hours_minutes_seconds() {
    assert_eq!(format_uptime(0), "0d 0h 0m 0s");
    assert_eq!(format_uptime(3600), "0d 1h 0m 0s");
    assert_eq!(format_uptime(86400 + 5 * 3600 + 7 * 60 + 9), "1d 5h 7m 9s");
    assert_eq!(format_uptime(59), "0d 0h 0m 59s");
}

#[test]
fn short_and_rate_formatting_adapt_decimals() {
    assert_eq!(format_bytes_short(93 * 1024 * 1024 * 1024), "93.0 GB");
    assert_eq!(format_bytes_short(93 * 1024 * 1024 * 1024 + 512 * 1024 * 1024), "93.5 GB");
    assert_eq!(format_bytes_short(512), "512 B");
}
