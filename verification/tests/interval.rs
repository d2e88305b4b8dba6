use convenience_tools::interval::{format_interval, interval_to_secs, TimeUnit};

#[test]
fn formats_whole_and_mixed_units() {
    assert_eq!(format_interval(10), "10초");
    assert_eq!(format_interval(30), "30초");
    assert_eq!(format_interval(60), "1분");
    assert_eq!(format_interval(120), "2분");
    assert_eq!(format_interval(3_600), "1시간");
    assert_eq!(format_interval(0), "0초");
}

#[test]
fn mixed_values_keep_every_unit_instead_of_truncating() {
    assert_eq!(format_interval(90), "1분 30초");
    assert_eq!(format_interval(3_661), "1시간 1분 1초");
    assert_eq!(format_interval(3_630), "1시간 30초");
}

#[test]
fn parses_amount_and_unit_into_seconds() {
    assert_eq!(interval_to_secs("10", TimeUnit::Seconds), Ok(10));
    assert_eq!(interval_to_secs(" 5 ", TimeUnit::Minutes), Ok(300));
    assert_eq!(interval_to_secs("2", TimeUnit::Hours), Ok(7_200));
}

#[test]
fn rejects_empty_non_numeric_and_out_of_range_input() {
    assert!(interval_to_secs("", TimeUnit::Seconds).is_err());
    assert!(interval_to_secs("abc", TimeUnit::Seconds).is_err());
    assert!(interval_to_secs("-5", TimeUnit::Seconds).is_err());
    assert!(interval_to_secs("0", TimeUnit::Seconds).is_err());
    assert!(interval_to_secs("25", TimeUnit::Hours).is_err());
    // An overflowing product must not slip through.
    assert!(interval_to_secs("99999999999999999999", TimeUnit::Hours).is_err());
}

#[test]
fn unit_labels_round_trip() {
    for unit in TimeUnit::all() {
        assert_eq!(TimeUnit::from_label(unit.label()), Some(unit));
    }
    assert_eq!(TimeUnit::from_label("일"), None);
}

#[test]
fn rejection_reasons_name_the_rule() {
    assert_eq!(interval_to_secs("", TimeUnit::Seconds), Err("시간을 입력하세요.".to_string()));
    assert_eq!(interval_to_secs("abc", TimeUnit::Seconds), Err("숫자만 입력할 수 있습니다.".to_string()));
    assert_eq!(interval_to_secs("0", TimeUnit::Seconds), Err("1초보다 짧게 설정할 수 없습니다.".to_string()));
    assert_eq!(interval_to_secs("25", TimeUnit::Hours), Err("24시간보다 긴 주기는 설정할 수 없습니다.".to_string()));
    assert_eq!(interval_to_secs("24", TimeUnit::Hours), Ok(86_400));
    assert_eq!(interval_to_secs("1", TimeUnit::Seconds), Ok(1));
}

#[test]
fn unit_seconds_per_step() {
    assert_eq!(TimeUnit::Seconds.seconds_per(), 1);
    assert_eq!(TimeUnit::Minutes.seconds_per(), 60);
    assert_eq!(TimeUnit::Hours.seconds_per(), 3_600);
}
