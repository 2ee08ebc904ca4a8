use luxifer::datetime::{civil_from_days, format_iso8601, gen_id, gen_id_from, now_iso8601};

#[test]
fn gen_id_ist_eindeutig() {
    let a = gen_id();
    let b = gen_id();
    assert_ne!(a, b);
}

#[test]
fn iso8601_formatiert_bekannten_zeitpunkt() {
    assert_eq!(format_iso8601(1_609_459_200), "2021-01-01T00:00:00Z");
    assert_eq!(format_iso8601(0), "1970-01-01T00:00:00Z");
}

#[test]
fn iso8601_leap_day_and_time_of_day() {
    // 2024-02-29T12:34:56Z
    assert_eq!(format_iso8601(1_709_210_096), "2024-02-29T12:34:56Z");
}

#[test]
fn civil_from_days_known_dates() {
    assert_eq!(civil_from_days(0), (1970, 1, 1));
    assert_eq!(civil_from_days(18628), (2021, 1, 1));
    assert_eq!(civil_from_days(-1), (1969, 12, 31));
}

#[test]
fn now_is_well_formed() {
    let s = now_iso8601();
    assert_eq!(s.len(), 20);
    assert!(s.ends_with('Z'));
}

#[test]
fn gen_id_from_is_deterministic_and_hexadecimal() {
    let a = gen_id_from(123, 456);
    assert_eq!(a, gen_id_from(123, 456));
    assert_ne!(a, gen_id_from(124, 456));
    assert!(a.starts_with("lx-"));
    assert!(a[3..].chars().all(|c| c.is_ascii_hexdigit() || c == '-'));
}
