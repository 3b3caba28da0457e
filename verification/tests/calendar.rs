use release_radar::calendar::{
    civil_from_days, cutoff_date, cutoff_date_at, date_key, epoch_secs, now_secs,
};
use release_radar::text::{push_decimal, push_padded, str_eq, str_less};

#[test]
fn civil_dates_of_known_days() {
    assert_eq!(civil_from_days(0), (1970, 1, 1));
    assert_eq!(civil_from_days(-1), (1969, 12, 31));
    assert_eq!(civil_from_days(59), (1970, 3, 1));
    assert_eq!(civil_from_days(11_016), (2000, 2, 29));
    assert_eq!(civil_from_days(11_017), (2000, 3, 1));
    assert_eq!(civil_from_days(20_000), (2024, 10, 4));
    assert_eq!(civil_from_days(-25_509), (1900, 2, 28));
    assert_eq!(civil_from_days(-25_508), (1900, 3, 1));
    assert_eq!(civil_from_days(-719_468), (0, 3, 1));
    assert_eq!(civil_from_days(-719_469), (0, 2, 29));
}

#[test]
fn civil_dates_follow_each_other() {
    let mut before = civil_from_days(-800_000);
    let mut z = -800_000;
    while z < 800_000 {
        z += 1;
        let date = civil_from_days(z);
        assert!(before < date);
        assert!((1..=12).contains(&date.1));
        assert!((1..=31).contains(&date.2));
        let next_day = date == (before.0, before.1, before.2 + 1);
        let next_month = date.2 == 1 && before.2 >= 28;
        assert!(next_day || next_month);
        before = date;
    }
}

#[test]
fn cutoff_counts_back_from_a_moment() {
    assert_eq!(cutoff_date_at(0, 0), "1970-01-01");
    assert_eq!(cutoff_date_at(86_399, 0), "1970-01-01");
    assert_eq!(cutoff_date_at(86_400, 0), "1970-01-02");
    assert_eq!(cutoff_date_at(-1, 0), "1969-12-31");
    assert_eq!(cutoff_date_at(0, 1), "1969-12-31");
    assert_eq!(cutoff_date_at(0, -1), "1970-01-02");
    assert_eq!(cutoff_date_at(1_728_000_000, 180), "2024-04-07");
}

#[test]
fn cutoff_pads_the_year() {
    assert_eq!(cutoff_date_at(-719_528 * 86_400, 0), "0000-01-01");
    assert_eq!(cutoff_date_at(-719_529 * 86_400, 0), "-001-12-31");
    assert_eq!(cutoff_date_at(2_932_897 * 86_400, 0), "10000-01-01");
    assert_eq!(cutoff_date_at(-718_000 * 86_400, 0).len(), 10);
}

#[test]
fn cutoff_of_extreme_moments() {
    assert_eq!(cutoff_date_at(i64::MAX, 0), "292277026596-12-04");
    assert_eq!(cutoff_date_at(i64::MIN, 0), "-292277022657-01-27");
    assert_eq!(cutoff_date_at(i64::MIN, 1), "292277026596-12-03");
}

#[test]
fn cutoff_from_the_clock_is_a_recent_date() {
    let now = now_secs();
    let date = cutoff_date(0);
    assert!(now > 1_700_000_000);
    assert!(date == cutoff_date_at(now, 0) || date == cutoff_date_at(now + 86_400, 0));
    assert!(str_less(&cutoff_date(180), &date));
}

#[test]
fn clock_readings_as_seconds() {
    assert_eq!(epoch_secs(None), 0);
    assert_eq!(epoch_secs(Some(0)), 0);
    assert_eq!(epoch_secs(Some(1_728_000_000)), 1_728_000_000);
    assert_eq!(epoch_secs(Some(u64::MAX)), -1);
    assert_eq!(epoch_secs(Some(1 << 63)), i64::MIN);
}

#[test]
fn date_keys_complete_partial_dates() {
    assert_eq!(date_key("2026"), "2026-01-01");
    assert_eq!(date_key("2026-05"), "2026-05-01");
    assert_eq!(date_key("2026-05-17"), "2026-05-17");
    assert_eq!(date_key(""), "");
    assert_eq!(date_key("20é"), "20é-01-01");
    assert_eq!(date_key("???"), "???");
}

#[test]
fn recent_dates_are_not_before_the_cutoff() {
    let cutoff = cutoff_date_at(1_728_000_000, 180);
    assert!(!str_less(&date_key("2024-04-07"), &cutoff));
    assert!(str_less(&date_key("2024-04-06"), &cutoff));
    assert!(!str_less(&date_key("2024-05"), &cutoff));
    assert!(str_less(&date_key("2024-04"), &cutoff));
    assert!(!str_less(&date_key("2025"), &cutoff));
    assert!(str_less(&date_key("2024"), &cutoff));
}

#[test]
fn texts_compare_by_their_bytes() {
    assert!(str_less("", "a"));
    assert!(!str_less("a", ""));
    assert!(!str_less("a", "a"));
    assert!(str_less("a", "ab"));
    assert!(str_less("Z", "a"));
    assert!(str_less("z", "é"));
    assert!(str_eq("é", "é"));
    assert!(!str_eq("a", "b"));
    assert!(!str_eq("a", "ab"));
}

#[test]
fn numbers_in_decimal() {
    let mut out = String::from("n=");
    push_decimal(&mut out, 0);
    push_decimal(&mut out, 1200);
    push_padded(&mut out, 7, 3);
    push_padded(&mut out, 1234, 2);
    assert_eq!(out, "n=012000071234");
}
