use xtop_widgets::roles::{series_role, test_palette, ROLE_SERIES_END, ROLE_SERIES_START};

#[test]
fn series_role_cycles_within_the_ramp() {
    assert_eq!(series_role(0), 9);
    assert_eq!(series_role(6), 15);
    assert_eq!(series_role(7), 9);
}

#[test]
fn series_roles_repeat_every_seven_series() {
    for i in 0..100usize {
        let r = series_role(i);
        assert!((ROLE_SERIES_START..ROLE_SERIES_END).contains(&r));
        assert_eq!(r, series_role(i + 7));
    }
}

#[test]
fn test_palette_slots_are_distinct() {
    let p = test_palette();
    assert_eq!(p[0], [0, 0, 0]);
    assert_eq!(p[15], [240, 240, 240]);
    for i in 0..16 {
        assert_eq!(p[i], [(i * 16) as u8; 3]);
    }
}
