use git_history_explorer::{CommitData, Date, TimelineData};

#[test]
fn test_commit_data_creation() {
    let email = "test@example.com".to_string();
    let commits = 10;
    let first_commit = Date::new(2023, 1, 1).unwrap();
    let last_commit = Date::new(2023, 12, 31).unwrap();

    let commit_data = CommitData::new(email.clone(), commits, first_commit, last_commit);

    assert_eq!(commit_data.email, email);
    assert_eq!(commit_data.commits, commits);
    assert_eq!(commit_data.first_commit, first_commit);
    assert_eq!(commit_data.last_commit, last_commit);
}

#[test]
fn test_commit_data_days_between() {
    let first_commit = Date::new(2023, 1, 1).unwrap();
    let last_commit = Date::new(2023, 1, 11).unwrap(); // 10 days later

    let commit_data = CommitData::new("test@example.com".to_string(), 5, first_commit, last_commit);

    assert_eq!(commit_data.days_between(), 10);
}

#[test]
fn test_commit_data_days_between_same_day() {
    let date = Date::new(2023, 1, 1).unwrap();

    let commit_data = CommitData::new("test@example.com".to_string(), 3, date, date);

    assert_eq!(commit_data.days_between(), 0);
}

#[test]
fn test_commit_data_days_between_negative() {
    let first_commit = Date::new(2023, 1, 11).unwrap();
    let last_commit = Date::new(2023, 1, 1).unwrap(); // Earlier date

    let commit_data = CommitData::new("test@example.com".to_string(), 2, first_commit, last_commit);

    // Should still work even if dates are "backwards"
    assert_eq!(commit_data.days_between(), -10);
}

#[test]
fn test_timeline_data_default() {
    let timeline = TimelineData::default();

    assert!(timeline.commits_by_period.is_empty());
    assert_eq!(timeline.total_commits, 0);
    assert_eq!(timeline.first_commit, Date::new(2099, 1, 1).unwrap());
    assert_eq!(timeline.last_commit, Date::new(1900, 1, 1).unwrap());
}

#[test]
fn test_timeline_data_add_commit() {
    let mut timeline = TimelineData::default();
    let date = Date::new(2023, 1, 1).unwrap();
    let commits = 3;

    timeline.add_commit(date, commits);

    assert_eq!(timeline.total_commits, commits);
    assert_eq!(timeline.commits_by_period.get(date), Some(commits));
    assert_eq!(timeline.first_commit, date);
    assert_eq!(timeline.last_commit, date);
}

#[test]
fn test_timeline_data_add_multiple_commits_same_date() {
    let mut timeline = TimelineData::default();
    let date = Date::new(2023, 1, 1).unwrap();

    timeline.add_commit(date, 3);
    timeline.add_commit(date, 2);

    assert_eq!(timeline.total_commits, 5);
    assert_eq!(timeline.commits_by_period.get(date), Some(5));
    assert_eq!(timeline.first_commit, date);
    assert_eq!(timeline.last_commit, date);
}

#[test]
fn test_timeline_data_date_range_updates() {
    let mut timeline = TimelineData::default();
    let early_date = Date::new(2023, 1, 1).unwrap();
    let middle_date = Date::new(2023, 6, 15).unwrap();
    let late_date = Date::new(2023, 12, 31).unwrap();

    timeline.add_commit(middle_date, 2);
    assert_eq!(timeline.first_commit, middle_date);
    assert_eq!(timeline.last_commit, middle_date);

    timeline.add_commit(early_date, 1);
    assert_eq!(timeline.first_commit, early_date);
    assert_eq!(timeline.last_commit, middle_date);

    timeline.add_commit(late_date, 4);
    assert_eq!(timeline.first_commit, early_date);
    assert_eq!(timeline.last_commit, late_date);
}

#[test]
fn test_timeline_data_total_commits() {
    let mut timeline = TimelineData::default();

    timeline.add_commit(Date::new(2023, 1, 1).unwrap(), 3);
    timeline.add_commit(Date::new(2023, 1, 2).unwrap(), 2);
    timeline.add_commit(Date::new(2023, 1, 3).unwrap(), 5);

    assert_eq!(timeline.total_commits, 10);
}

#[test]
fn test_timeline_data_multiple_dates() {
    let mut timeline = TimelineData::default();
    let date1 = Date::new(2023, 1, 1).unwrap();
    let date2 = Date::new(2023, 1, 2).unwrap();

    timeline.add_commit(date1, 3);
    timeline.add_commit(date2, 2);

    assert_eq!(timeline.total_commits, 5);
    assert_eq!(timeline.commits_by_period.get(date1), Some(3));
    assert_eq!(timeline.commits_by_period.get(date2), Some(2));
    assert_eq!(timeline.first_commit, date1);
    assert_eq!(timeline.last_commit, date2);
}

#[test]
fn test_date_new_rejects_impossible_days() {
    assert!(Date::new(2023, 2, 29).is_none());
    assert!(Date::new(2023, 4, 31).is_none());
    assert!(Date::new(2023, 13, 1).is_none());
    assert!(Date::new(2023, 0, 1).is_none());
    assert!(Date::new(2023, 1, 0).is_none());
    assert!(Date::new(-1, 1, 1).is_none());
    assert!(Date::new(2020, 2, 29).is_some()); // leap day of a leap year
}

#[test]
fn test_days_between_across_leap_day() {
    // 2020 is a leap year: Feb 28 to Mar 1 spans the leap day.
    let first = Date::new(2020, 2, 28).unwrap();
    let last = Date::new(2020, 3, 1).unwrap();
    let c = CommitData::new("test@example.com".to_string(), 1, first, last);
    assert_eq!(c.days_between(), 2);

    // 2023 is not: the same spread is one day.
    let first = Date::new(2023, 2, 28).unwrap();
    let last = Date::new(2023, 3, 1).unwrap();
    let c = CommitData::new("test@example.com".to_string(), 1, first, last);
    assert_eq!(c.days_between(), 1);
}

#[test]
fn test_days_between_across_years() {
    let first = Date::new(2022, 12, 31).unwrap();
    let last = Date::new(2023, 1, 1).unwrap();
    let c = CommitData::new("test@example.com".to_string(), 1, first, last);
    assert_eq!(c.days_between(), 1);

    let first = Date::new(2023, 1, 1).unwrap();
    let last = Date::new(2023, 12, 31).unwrap();
    let c = CommitData::new("test@example.com".to_string(), 1, first, last);
    assert_eq!(c.days_between(), 364);
}
