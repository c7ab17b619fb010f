use chrono::Datelike;
use git_history_explorer::{Date, HeatMapData, TimelineData};

#[test]
fn test_heatmap_data_new() {
    let heatmap = HeatMapData::new();

    assert!(heatmap.commits_by_date.is_empty());
    assert_eq!(heatmap.start_date, Date::new(2099, 1, 1).unwrap());
    assert_eq!(heatmap.end_date, Date::new(1900, 1, 1).unwrap());
    assert_eq!(heatmap.max_commits, 0);
}

#[test]
fn test_heatmap_data_add_commits() {
    let mut heatmap = HeatMapData::new();
    let date = Date::new(2023, 1, 1).unwrap();
    let count = 5;

    heatmap.add_commits(date, count);

    assert_eq!(heatmap.get_commits(date), count);
    assert_eq!(heatmap.max_commits, count);
    assert_eq!(heatmap.start_date, date);
    assert_eq!(heatmap.end_date, date);
}

#[test]
fn test_heatmap_data_add_commits_multiple_dates() {
    let mut heatmap = HeatMapData::new();
    let date1 = Date::new(2023, 1, 1).unwrap();
    let date2 = Date::new(2023, 1, 2).unwrap();

    heatmap.add_commits(date1, 3);
    heatmap.add_commits(date2, 7);

    assert_eq!(heatmap.get_commits(date1), 3);
    assert_eq!(heatmap.get_commits(date2), 7);
    assert_eq!(heatmap.max_commits, 7);
    assert_eq!(heatmap.start_date, date1);
    assert_eq!(heatmap.end_date, date2);
}

#[test]
fn test_heatmap_data_add_commits_same_date() {
    let mut heatmap = HeatMapData::new();
    let date = Date::new(2023, 1, 1).unwrap();

    heatmap.add_commits(date, 3);
    heatmap.add_commits(date, 2);

    assert_eq!(heatmap.get_commits(date), 5);
    assert_eq!(heatmap.max_commits, 5);
}

#[test]
fn test_heatmap_data_get_commits_nonexistent_date() {
    let heatmap = HeatMapData::new();
    let date = Date::new(2023, 1, 1).unwrap();

    assert_eq!(heatmap.get_commits(date), 0);
}

#[test]
fn test_heatmap_data_get_intensity_level_zero() {
    let heatmap = HeatMapData::new();

    assert_eq!(heatmap.get_intensity_level(0), 0);
}

#[test]
fn test_heatmap_data_get_intensity_level_small_max() {
    let mut heatmap = HeatMapData::new();
    heatmap.add_commits(Date::new(2023, 1, 1).unwrap(), 3);

    assert_eq!(heatmap.get_intensity_level(0), 0);
    assert_eq!(heatmap.get_intensity_level(1), 1);
    assert_eq!(heatmap.get_intensity_level(2), 2);
    assert_eq!(heatmap.get_intensity_level(3), 3);
    assert_eq!(heatmap.get_intensity_level(4), 4); // When max_commits <= 4, it returns commits.min(4)
    assert_eq!(heatmap.get_intensity_level(5), 4); // When max_commits <= 4, it returns commits.min(4)
}

#[test]
fn test_heatmap_data_get_intensity_level_quartiles() {
    let mut heatmap = HeatMapData::new();
    heatmap.add_commits(Date::new(2023, 1, 1).unwrap(), 20); // max_commits = 20

    // Quartiles: 5, 10, 15
    assert_eq!(heatmap.get_intensity_level(0), 0);
    assert_eq!(heatmap.get_intensity_level(3), 1); // <= 5
    assert_eq!(heatmap.get_intensity_level(7), 2); // <= 10
    assert_eq!(heatmap.get_intensity_level(12), 3); // <= 15
    assert_eq!(heatmap.get_intensity_level(18), 4); // > 15
}

#[test]
fn test_heatmap_data_get_intensity_level_edge_cases() {
    let mut heatmap = HeatMapData::new();
    heatmap.add_commits(Date::new(2023, 1, 1).unwrap(), 8); // max_commits = 8

    // Quartiles: 2, 4, 6
    assert_eq!(heatmap.get_intensity_level(1), 1); // <= 2
    assert_eq!(heatmap.get_intensity_level(2), 1); // <= 2
    assert_eq!(heatmap.get_intensity_level(3), 2); // <= 4
    assert_eq!(heatmap.get_intensity_level(4), 2); // <= 4
    assert_eq!(heatmap.get_intensity_level(5), 3); // <= 6
    assert_eq!(heatmap.get_intensity_level(6), 3); // <= 6
    assert_eq!(heatmap.get_intensity_level(7), 4); // > 6
    assert_eq!(heatmap.get_intensity_level(8), 4); // > 6
}

#[test]
fn test_heatmap_data_get_intensity_level_monotone() {
    let mut heatmap = HeatMapData::new();
    heatmap.add_commits(Date::new(2023, 1, 1).unwrap(), 17);

    let mut previous = 0u8;
    for c in 0..=17u32 {
        let level = heatmap.get_intensity_level(c);
        assert!(level >= previous);
        previous = level;
    }
}

#[test]
fn test_heatmap_data_create_from_timeline_data() {
    let mut timeline = TimelineData::default();
    timeline.add_commit(Date::new(2023, 1, 1).unwrap(), 3);
    timeline.add_commit(Date::new(2023, 1, 2).unwrap(), 5);

    let heatmap = HeatMapData::create_from_timeline_data(&timeline);

    // Should map to current year calendar
    let current_year = chrono::Utc::now().date_naive().year();
    let expected_date1 = Date::new(current_year, 1, 1).unwrap();
    let expected_date2 = Date::new(current_year, 1, 2).unwrap();

    assert_eq!(heatmap.get_commits(expected_date1), 3);
    assert_eq!(heatmap.get_commits(expected_date2), 5);
    assert_eq!(heatmap.max_commits, 5);
}

#[test]
fn test_heatmap_data_leap_year_handling() {
    let mut timeline = TimelineData::default();
    // Feb 29 from a leap year should map to a valid date
    timeline.add_commit(Date::new(2020, 2, 29).unwrap(), 2);

    let heatmap = HeatMapData::create_from_timeline_data(&timeline);

    // Should fallback to a valid date (likely Feb 28 or Mar 1 in non-leap years)
    // The important thing is that it doesn't panic
    assert!(heatmap.max_commits > 0);
}

#[test]
fn test_heatmap_data_create_from_empty_timeline() {
    let timeline = TimelineData::default();
    let heatmap = HeatMapData::create_from_timeline_data(&timeline);

    assert!(heatmap.commits_by_date.is_empty());
    assert_eq!(heatmap.max_commits, 0);
}

#[test]
fn test_heatmap_data_date_range_updates() {
    let mut heatmap = HeatMapData::new();
    let early_date = Date::new(2023, 1, 1).unwrap();
    let late_date = Date::new(2023, 12, 31).unwrap();

    heatmap.add_commits(late_date, 5);
    assert_eq!(heatmap.start_date, late_date);
    assert_eq!(heatmap.end_date, late_date);

    heatmap.add_commits(early_date, 3);
    assert_eq!(heatmap.start_date, early_date);
    assert_eq!(heatmap.end_date, late_date);
}

#[test]
fn test_projection_round_trip_single_year() {
    // Every event in one non-leap year: projecting onto any reference year
    // reproduces the per-day counts, the total, and the maximum.
    let mut timeline = TimelineData::default();
    timeline.add_commit(Date::new(2023, 2, 28).unwrap(), 4);
    timeline.add_commit(Date::new(2023, 7, 4).unwrap(), 1);
    timeline.add_commit(Date::new(2023, 12, 31).unwrap(), 2);

    let heatmap = HeatMapData::project(&timeline, 2026);

    assert_eq!(heatmap.get_commits(Date::new(2026, 2, 28).unwrap()), 4);
    assert_eq!(heatmap.get_commits(Date::new(2026, 7, 4).unwrap()), 1);
    assert_eq!(heatmap.get_commits(Date::new(2026, 12, 31).unwrap()), 2);
    assert_eq!(heatmap.max_commits, 4);
    assert_eq!(heatmap.commits_by_date.len(), 3);
}

#[test]
fn test_projection_leap_day_keeps_original_date() {
    let mut timeline = TimelineData::default();
    timeline.add_commit(Date::new(2020, 2, 29).unwrap(), 3);
    timeline.add_commit(Date::new(2020, 3, 1).unwrap(), 1);

    // 2023 has no Feb 29: that day keeps its historical date.
    let heatmap = HeatMapData::project(&timeline, 2023);

    assert_eq!(heatmap.get_commits(Date::new(2020, 2, 29).unwrap()), 3);
    assert_eq!(heatmap.get_commits(Date::new(2023, 3, 1).unwrap()), 1);
    assert_eq!(heatmap.max_commits, 3);
}

#[test]
fn test_projection_accumulates_colliding_days() {
    // Two historical years, same month and day: counts add up on the
    // projected calendar day.
    let mut timeline = TimelineData::default();
    timeline.add_commit(Date::new(2021, 5, 9).unwrap(), 2);
    timeline.add_commit(Date::new(2022, 5, 9).unwrap(), 3);

    let heatmap = HeatMapData::project(&timeline, 2023);

    assert_eq!(heatmap.get_commits(Date::new(2023, 5, 9).unwrap()), 5);
    assert_eq!(heatmap.max_commits, 5);
    assert_eq!(heatmap.commits_by_date.len(), 1);
}
