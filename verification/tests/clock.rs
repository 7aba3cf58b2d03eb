use abar::modules::clock::{ClockConfig, ms_until_next_tick, next_tz_index, parse_tz};

#[test]
fn unknown_tz_returns_none() {
    assert!(parse_tz("Not/ATimezone").is_none());
}

#[test]
fn known_tz_parses() {
    assert_eq!(parse_tz("Europe/Moscow"), Some(chrono_tz::Tz::Europe__Moscow));
    assert_eq!(parse_tz("Asia/Tokyo"), Some(chrono_tz::Tz::Asia__Tokyo));
}

#[test]
fn ms_until_next_tick_in_range() {
    for secs in 0..60u32 {
        for nanos in [0u32, 1, 999_999, 1_000_000, 500_000_000, 999_999_999] {
            let ms = ms_until_next_tick(secs, nanos);
            assert!((1..=60_000).contains(&ms));
        }
    }
}

#[test]
fn ms_until_next_tick_exact_values() {
    assert_eq!(ms_until_next_tick(0, 0), 60_000);
    assert_eq!(ms_until_next_tick(30, 250_000_000), 29_750);
    assert_eq!(ms_until_next_tick(59, 999_999_999), 1);
    assert_eq!(ms_until_next_tick(59, 1_999_999_999), 1);
}

#[test]
fn clock_default_format_is_hm() {
    let c = ClockConfig::default();
    assert_eq!(c.formats, vec!["%H:%M".to_string()]);
    assert!(c.timezones.is_empty());
}

#[test]
fn tz_scroll_wraps_both_ways() {
    assert_eq!(next_tz_index(0, 3, true), 2);
    assert_eq!(next_tz_index(2, 3, false), 0);
    assert_eq!(next_tz_index(1, 3, true), 0);
    assert_eq!(next_tz_index(1, 3, false), 2);
    assert_eq!(next_tz_index(next_tz_index(1, 3, true), 3, false), 1);
}
