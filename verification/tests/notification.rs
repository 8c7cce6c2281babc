use baelyks_notification_server::notification::{
    can_expire_at, decimal_string, expire_time, notification_time, notification_time_at,
    pair_actions, urgency_from_hint, Notification, TimeLabel, Urgency,
};

#[test]
fn urgency_levels() {
    assert_eq!(urgency_from_hint(None), (Urgency::Normal, true));
    assert_eq!(urgency_from_hint(Some(0)), (Urgency::Low, true));
    assert_eq!(urgency_from_hint(Some(1)), (Urgency::Normal, true));
    assert_eq!(urgency_from_hint(Some(2)), (Urgency::Critical, true));
}

#[test]
fn an_unexpected_urgency_level_is_normal() {
    assert_eq!(urgency_from_hint(Some(3)), (Urgency::Normal, false));
    assert_eq!(urgency_from_hint(Some(255)), (Urgency::Normal, false));
}

#[test]
fn a_critical_notification_never_expires() {
    for timeout in [-1, 0, 1, 5000, i32::MAX, i32::MIN] {
        assert_eq!(expire_time(Urgency::Critical, timeout, 1_700_000_000_000), None);
    }
}

#[test]
fn a_timeout_of_zero_never_expires() {
    assert_eq!(expire_time(Urgency::Low, 0, 1_700_000_000_000), None);
    assert_eq!(expire_time(Urgency::Normal, 0, 1_700_000_000_000), None);
}

#[test]
fn the_default_timeout_is_a_minute() {
    assert_eq!(expire_time(Urgency::Normal, -1, 1_700_000_000_000), Some(1_700_000_060_000));
    assert_eq!(expire_time(Urgency::Low, -1, 0), Some(60_000));
}

#[test]
fn any_other_timeout_is_in_milliseconds() {
    assert_eq!(expire_time(Urgency::Normal, 5000, 1_700_000_000_000), Some(1_700_000_005_000));
    assert_eq!(expire_time(Urgency::Low, 1, 10), Some(11));
    assert_eq!(expire_time(Urgency::Normal, i32::MAX, 0), Some(2_147_483_647));
    assert_eq!(expire_time(Urgency::Normal, -2, 1000), Some(998));
}

#[test]
fn expiry_that_does_not_fit_is_found_out() {
    assert!(can_expire_at(Urgency::Normal, 5000, 1_700_000_000_000));
    assert!(can_expire_at(Urgency::Critical, 5000, i64::MAX));
    assert!(can_expire_at(Urgency::Normal, 0, i64::MAX));
    assert!(!can_expire_at(Urgency::Normal, 1, i64::MAX));
    assert!(!can_expire_at(Urgency::Normal, -1, i64::MAX - 59_999));
    assert!(can_expire_at(Urgency::Normal, -1, i64::MAX - 60_000));
    assert!(!can_expire_at(Urgency::Low, -2, i64::MIN + 1));
    assert!(can_expire_at(Urgency::Low, -2, i64::MIN + 2));
}

fn sample(expire_time: Option<i64>) -> Notification {
    Notification {
        id: 1,
        icon: "icon".into(),
        name: "name".into(),
        summary: "summary".into(),
        body: None,
        time: 1000,
        expire_time,
        actions: None,
        urgency: Urgency::Normal,
    }
}

#[test]
fn a_notification_expires_after_its_time() {
    assert!(!sample(Some(2000)).is_expired(1999));
    assert!(!sample(Some(2000)).is_expired(2000));
    assert!(sample(Some(2000)).is_expired(2001));
    assert!(!sample(None).is_expired(i64::MAX));
}

#[test]
fn actions_are_paired() {
    let strings = |v: &[&str]| v.iter().map(|s| s.to_string()).collect::<Vec<String>>();
    assert_eq!(pair_actions(&strings(&[])), None);
    assert_eq!(pair_actions(&strings(&["lonely"])), None);
    assert_eq!(
        pair_actions(&strings(&["default", "Open"])),
        Some(vec![("default".to_string(), "Open".to_string())])
    );
    assert_eq!(
        pair_actions(&strings(&["a", "A", "b", "B", "odd"])),
        Some(vec![("a".to_string(), "A".to_string()), ("b".to_string(), "B".to_string())])
    );
}

#[test]
fn labels_by_age() {
    let at = |elapsed: i64| notification_time_at(1_700_000_000_000 + elapsed, 1_700_000_000_000);
    assert_eq!(at(-5_000), TimeLabel::Now);
    assert_eq!(at(0), TimeLabel::Now);
    assert_eq!(at(29_999), TimeLabel::Now);
    assert_eq!(at(30_000), TimeLabel::HalfMinute);
    assert_eq!(at(59_999), TimeLabel::HalfMinute);
    assert_eq!(at(60_000), TimeLabel::Minutes(1));
    assert_eq!(at(119_999), TimeLabel::Minutes(1));
    assert_eq!(at(3_599_999), TimeLabel::Minutes(59));
    assert_eq!(at(3_600_000), TimeLabel::Hours(1));
    assert_eq!(at(14_399_999), TimeLabel::Hours(3));
    assert_eq!(at(14_400_000), TimeLabel::TimeOfDay);
    assert_eq!(at(86_399_999), TimeLabel::TimeOfDay);
    assert_eq!(at(86_400_000), TimeLabel::WeekdayAndTime);
    assert_eq!(at(604_799_999), TimeLabel::WeekdayAndTime);
    assert_eq!(at(604_800_000), TimeLabel::WeekdayAndDate);
}

#[test]
fn labels_at_the_ends_of_time() {
    assert_eq!(notification_time_at(i64::MIN, i64::MAX), TimeLabel::Now);
    assert_eq!(notification_time_at(i64::MAX, i64::MIN), TimeLabel::WeekdayAndDate);
}

#[test]
fn the_words_of_a_label() {
    assert_eq!(TimeLabel::Now.text(), Some("now".to_string()));
    assert_eq!(TimeLabel::HalfMinute.text(), Some("30s ago".to_string()));
    assert_eq!(TimeLabel::Minutes(7).text(), Some("7m ago".to_string()));
    assert_eq!(TimeLabel::Minutes(59).text(), Some("59m ago".to_string()));
    assert_eq!(TimeLabel::Hours(3).text(), Some("3h ago".to_string()));
    assert_eq!(TimeLabel::TimeOfDay.text(), None);
    assert_eq!(TimeLabel::WeekdayAndTime.text(), None);
    assert_eq!(TimeLabel::WeekdayAndDate.text(), None);
}

#[test]
fn the_pattern_of_a_label() {
    assert_eq!(TimeLabel::Now.pattern(), None);
    assert_eq!(TimeLabel::Minutes(7).pattern(), None);
    assert_eq!(TimeLabel::TimeOfDay.pattern(), Some("%H:%S"));
    assert_eq!(TimeLabel::WeekdayAndTime.pattern(), Some("%a %H:%M"));
    assert_eq!(TimeLabel::WeekdayAndDate.pattern(), Some("%a %h %e"));
}

#[test]
fn numbers_in_decimal() {
    assert_eq!(decimal_string(0), "0");
    assert_eq!(decimal_string(9), "9");
    assert_eq!(decimal_string(10), "10");
    assert_eq!(decimal_string(1234567890), "1234567890");
    assert_eq!(decimal_string(u64::MAX), "18446744073709551615");
}

#[test]
fn a_notification_sent_long_ago_shows_its_date() {
    assert_eq!(notification_time(0), TimeLabel::WeekdayAndDate);
}

#[test]
fn a_notification_from_the_far_future_is_new() {
    assert_eq!(notification_time(i64::MAX), TimeLabel::Now);
}
