use adequate_booru_viewer::date_spool::{blank_label, label, wrap, Parts, Reel, YEAR_MIN};

#[test]
fn circular_month_clamps_day() {
    let mut parts = Parts { year: 2024, month: 3, day: 31 };
    assert!(parts.spin(Reel::Month, -1, 2026));
    assert_eq!((parts.year, parts.month, parts.day), (2024, 2, 29));
}

#[test]
fn circular_day_wraps_inside_month() {
    let mut parts = Parts { year: 2025, month: 4, day: 30 };
    assert!(parts.spin(Reel::Day, 1, 2026));
    assert_eq!(parts.day, 1);
}

#[test]
fn year_limits_refuse_motion() {
    let mut parts = Parts { year: YEAR_MIN, month: 1, day: 1 };
    assert!(!parts.spin(Reel::Year, -1, 2026));
    assert_eq!(parts.year, YEAR_MIN);
}

#[test]
fn year_turn_clamps_leap_day() {
    let mut parts = Parts { year: 2024, month: 2, day: 29 };
    assert!(parts.spin(Reel::Year, 1, 2026));
    assert_eq!((parts.year, parts.month, parts.day), (2025, 2, 28));
}

#[test]
fn year_turn_past_the_upper_limit_is_refused() {
    let mut parts = Parts { year: 2026, month: 5, day: 3 };
    assert!(!parts.spin(Reel::Year, 1, 2026));
    assert_eq!(parts, Parts { year: 2026, month: 5, day: 3 });
}

#[test]
fn month_wraps_from_january_to_december() {
    let mut parts = Parts { year: 2020, month: 1, day: 15 };
    assert!(parts.spin(Reel::Month, -1, 2026));
    assert_eq!(parts.month, 12);
}

#[test]
fn wrap_is_euclidean() {
    assert_eq!(wrap(-1, 12), 11);
    assert_eq!(wrap(13, 12), 1);
    assert_eq!(wrap(-24, 12), 0);
    assert_eq!(wrap(5, 0), 0);
}

#[test]
fn reel_labels_show_neighbouring_values() {
    let parts = Parts { year: 2024, month: 1, day: 31 };
    assert_eq!(label(Reel::Year, parts, 1), "2025");
    assert_eq!(label(Reel::Month, parts, -1), "DEC");
    assert_eq!(label(Reel::Day, parts, 1), "01");
    assert_eq!(label(Reel::Day, parts, -2), "29");
    assert_eq!(blank_label(Reel::Month), "───");
}
