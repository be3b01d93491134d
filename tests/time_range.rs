use tagrss::error::ConfigError;
use tagrss::models::Timestamp;
use tagrss::folder::FolderManager;

fn day_start(y: i32, m: u32, d: u32) -> i64 {
    chrono::NaiveDate::from_ymd_opt(y, m, d).unwrap().and_hms_opt(0, 0, 0).unwrap().and_utc().timestamp()
}

const TODAY: i64 = 1_717_200_000; // 2024-06-01T00:00:00Z

#[test]
fn literal_dates_cover_whole_days() {
    let r = FolderManager::parse_time_range(" 2024-01-01 ~ 2024-01-31 ", TODAY).unwrap();
    assert_eq!(r.0, Some(Timestamp { secs: day_start(2024, 1, 1) }));
    assert_eq!(r.1, Some(Timestamp { secs: day_start(2024, 1, 31) + 86_399 }));
    assert_eq!(r.0, Some(Timestamp { secs: 1_704_067_200 }));
}

#[test]
fn empty_sides_are_unbounded() {
    assert_eq!(FolderManager::parse_time_range("2024-01-01 ~", TODAY), Ok((Some(Timestamp { secs: 1_704_067_200 }), None)));
    assert_eq!(FolderManager::parse_time_range("~ 2024-01-01", TODAY), Ok((None, Some(Timestamp { secs: 1_704_067_200 + 86_399 }))));
    assert_eq!(FolderManager::parse_time_range(" ~ ", TODAY), Ok((None, None)));
}

#[test]
fn keywords_resolve_against_today_in_any_case() {
    assert_eq!(
        FolderManager::parse_time_range("yesterday ~ Tomorrow", TODAY),
        Ok((Some(Timestamp { secs: TODAY - 86_400 }), Some(Timestamp { secs: TODAY + 2 * 86_400 - 1 })))
    );
    assert_eq!(
        FolderManager::parse_time_range("TODAY ~ today", TODAY),
        Ok((Some(Timestamp { secs: TODAY }), Some(Timestamp { secs: TODAY + 86_399 })))
    );
}

#[test]
fn wrong_number_of_parts_is_refused() {
    assert_eq!(FolderManager::parse_time_range("2024-01-01", TODAY), Err(ConfigError::InvalidTimeRange));
    assert_eq!(FolderManager::parse_time_range("2024-01-01 ~ 2024-01-02 ~ 2024-01-03", TODAY), Err(ConfigError::InvalidTimeRange));
    assert_eq!(FolderManager::parse_time_range("", TODAY), Err(ConfigError::InvalidTimeRange));
}

#[test]
fn unparseable_sides_are_refused() {
    assert_eq!(FolderManager::parse_time_range("someday ~", TODAY), Err(ConfigError::InvalidTimeRange));
    assert_eq!(FolderManager::parse_time_range("~ 2024-02-30", TODAY), Err(ConfigError::InvalidTimeRange));
    assert_eq!(FolderManager::parse_time_range("01/02/2024 ~ today", TODAY), Err(ConfigError::InvalidTimeRange));
}

#[test]
fn keyword_arithmetic_overflow_is_refused() {
    let first_day = (i64::MIN / 86_400) * 86_400;
    let last_day = (i64::MAX / 86_400) * 86_400;
    assert_eq!(FolderManager::parse_time_range("yesterday ~", first_day), Err(ConfigError::InvalidTimeRange));
    assert_eq!(FolderManager::parse_time_range("today ~", first_day), Ok((Some(Timestamp { secs: first_day }), None)));
    assert_eq!(FolderManager::parse_time_range("~ today", last_day), Err(ConfigError::InvalidTimeRange));
}

#[test]
fn now_variant_resolves_today() {
    let (start, end) = FolderManager::parse_time_range_now("today ~ today").unwrap();
    let (s, e) = (start.unwrap().secs, end.unwrap().secs);
    assert_eq!(s % 86_400, 0);
    assert_eq!(e - s, 86_399);
}

#[test]
fn keywords_match_ascii_case_only() {
    assert_eq!(
        FolderManager::parse_time_range("ToDaY ~ tOmOrRoW", TODAY),
        Ok((Some(Timestamp { secs: TODAY }), Some(Timestamp { secs: TODAY + 2 * 86_400 - 1 })))
    );
    assert_eq!(FolderManager::parse_time_range("to day ~", TODAY), Err(ConfigError::InvalidTimeRange));
    assert_eq!(FolderManager::parse_time_range("todaý ~", TODAY), Err(ConfigError::InvalidTimeRange));
}

#[test]
fn sides_are_trimmed_of_unicode_white_space() {
    assert_eq!(
        FolderManager::parse_time_range("\u{3000}2024-01-01\t~\u{2003}\n", TODAY),
        Ok((Some(Timestamp { secs: 1_704_067_200 }), None))
    );
}

#[test]
fn parsed_bounds_fall_on_day_edges() {
    let (s, e) = FolderManager::parse_time_range("2023-03-05 ~ tomorrow", TODAY).unwrap();
    assert_eq!(s.unwrap().secs % 86_400, 0);
    assert_eq!(e.unwrap().secs % 86_400, 86_399);
}
