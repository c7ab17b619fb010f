use git_history_explorer::{
    format_repo_path, Args, CommitEvent, Date, RepositoryConfig, TimelineData,
};

fn event(email: &str, y: i32, m: u8, d: u8) -> CommitEvent {
    CommitEvent { email: Some(email.to_string()), date: Date::new(y, m, d) }
}

#[test]
fn test_collect_commit_info_groups_by_author() {
    // Three events, two authors, no filters.
    let events = vec![
        event("a@x.com", 2023, 1, 1),
        event("a@x.com", 2023, 1, 2),
        event("b@x.com", 2023, 1, 1),
    ];
    let config = RepositoryConfig::default();

    let (summaries, timelines, processed) =
        git_history_explorer::collect_commit_info(&events, &config);

    assert_eq!(processed, 3);
    assert_eq!(summaries.len(), 2);

    let a = summaries.iter().find(|c| c.email == "a@x.com").unwrap();
    assert_eq!(a.commits, 2);
    assert_eq!(a.first_commit, Date::new(2023, 1, 1).unwrap());
    assert_eq!(a.last_commit, Date::new(2023, 1, 2).unwrap());

    let b = summaries.iter().find(|c| c.email == "b@x.com").unwrap();
    assert_eq!(b.commits, 1);
    assert_eq!(b.first_commit, Date::new(2023, 1, 1).unwrap());
    assert_eq!(b.last_commit, Date::new(2023, 1, 1).unwrap());

    let a_timeline = timelines.get("a@x.com").unwrap();
    assert_eq!(a_timeline.total_commits, 2);
    assert_eq!(a_timeline.commits_by_period.get(Date::new(2023, 1, 1).unwrap()), Some(1));
    assert_eq!(a_timeline.commits_by_period.get(Date::new(2023, 1, 2).unwrap()), Some(1));
}

#[test]
fn test_collect_commit_info_since_filter() {
    // An event dated the day before `since` is excluded; one dated exactly
    // `since` is included.
    let events = vec![event("a@x.com", 2023, 5, 31), event("a@x.com", 2023, 6, 1)];
    let config = RepositoryConfig {
        max_commits: None,
        since_date: Date::new(2023, 6, 1),
        until_date: None,
    };

    let (summaries, _timelines, processed) =
        git_history_explorer::collect_commit_info(&events, &config);

    assert_eq!(processed, 1);
    assert_eq!(summaries.len(), 1);
    assert_eq!(summaries[0].commits, 1);
    assert_eq!(summaries[0].first_commit, Date::new(2023, 6, 1).unwrap());
}

#[test]
fn test_collect_commit_info_until_filter() {
    let events = vec![event("a@x.com", 2023, 5, 31), event("a@x.com", 2023, 6, 1)];
    let config = RepositoryConfig {
        max_commits: None,
        since_date: None,
        until_date: Date::new(2023, 5, 31),
    };

    let (summaries, _timelines, processed) =
        git_history_explorer::collect_commit_info(&events, &config);

    assert_eq!(processed, 1);
    assert_eq!(summaries[0].last_commit, Date::new(2023, 5, 31).unwrap());
}

#[test]
fn test_collect_commit_info_max_commits_cap() {
    // With a cap of one and two qualifying events in stream order, only the
    // first-encountered event is counted.
    let events = vec![event("a@x.com", 2023, 1, 1), event("b@x.com", 2023, 1, 2)];
    let config = RepositoryConfig {
        max_commits: Some(1),
        since_date: None,
        until_date: None,
    };

    let (summaries, _timelines, processed) =
        git_history_explorer::collect_commit_info(&events, &config);

    assert_eq!(processed, 1);
    assert_eq!(summaries.len(), 1);
    assert_eq!(summaries[0].email, "a@x.com");
}

#[test]
fn test_collect_commit_info_filtered_events_do_not_consume_cap() {
    // An event rejected by the date window must not count toward the cap.
    let events = vec![event("a@x.com", 2022, 12, 31), event("b@x.com", 2023, 1, 2)];
    let config = RepositoryConfig {
        max_commits: Some(1),
        since_date: Date::new(2023, 1, 1),
        until_date: None,
    };

    let (summaries, _timelines, processed) =
        git_history_explorer::collect_commit_info(&events, &config);

    assert_eq!(processed, 1);
    assert_eq!(summaries.len(), 1);
    assert_eq!(summaries[0].email, "b@x.com");
}

#[test]
fn test_collect_commit_info_skips_malformed_events() {
    // Events lacking an identity or a date are skipped silently, without
    // consuming the cap.
    let events = vec![
        CommitEvent { email: None, date: Date::new(2023, 1, 1) },
        CommitEvent { email: Some("a@x.com".to_string()), date: None },
        event("a@x.com", 2023, 1, 3),
    ];
    let config = RepositoryConfig {
        max_commits: Some(1),
        since_date: None,
        until_date: None,
    };

    let (summaries, _timelines, processed) =
        git_history_explorer::collect_commit_info(&events, &config);

    assert_eq!(processed, 1);
    assert_eq!(summaries.len(), 1);
    assert_eq!(summaries[0].email, "a@x.com");
    assert_eq!(summaries[0].first_commit, Date::new(2023, 1, 3).unwrap());
}

#[test]
fn test_prepare_commit_data_presentation_order() {
    // Sorted ascending by first event; among equal first events the later
    // last event comes first.
    let c1 = git_history_explorer::CommitData::new(
        "late@x.com".to_string(),
        1,
        Date::new(2023, 2, 1).unwrap(),
        Date::new(2023, 2, 2).unwrap(),
    );
    let c2 = git_history_explorer::CommitData::new(
        "short@x.com".to_string(),
        1,
        Date::new(2023, 1, 1).unwrap(),
        Date::new(2023, 1, 5).unwrap(),
    );
    let c3 = git_history_explorer::CommitData::new(
        "long@x.com".to_string(),
        1,
        Date::new(2023, 1, 1).unwrap(),
        Date::new(2023, 3, 1).unwrap(),
    );

    let prepared = git_history_explorer::prepare_commit_data(vec![c1, c2, c3]);

    assert_eq!(prepared[0].email, "long@x.com"); // same first day, later last day first
    assert_eq!(prepared[1].email, "short@x.com");
    assert_eq!(prepared[2].email, "late@x.com");
}

#[test]
fn test_project_union_sums_across_authors() {
    let mut timelines = git_history_explorer::AuthorTimelineMap::new();

    let mut t1 = TimelineData::default();
    t1.add_commit(Date::new(2021, 4, 2).unwrap(), 2);
    timelines.insert("a@x.com".to_string(), t1);

    let mut t2 = TimelineData::default();
    t2.add_commit(Date::new(2022, 4, 2).unwrap(), 5);
    t2.add_commit(Date::new(2022, 4, 3).unwrap(), 1);
    timelines.insert("b@x.com".to_string(), t2);

    let heatmap = git_history_explorer::project_union(&timelines, 2023);

    assert_eq!(heatmap.get_commits(Date::new(2023, 4, 2).unwrap()), 7);
    assert_eq!(heatmap.get_commits(Date::new(2023, 4, 3).unwrap()), 1);
    assert_eq!(heatmap.max_commits, 7);
}

#[test]
fn test_build_repository_data_assembles_everything() {
    let events = vec![
        event("a@x.com", 2023, 1, 1),
        event("a@x.com", 2023, 1, 2),
        event("b@x.com", 2023, 1, 1),
    ];
    let config = RepositoryConfig::default();

    let data = git_history_explorer::build_repository_data(
        &events,
        "/some/repo".to_string(),
        &config,
    );

    assert_eq!(data.repo_path, "/some/repo");
    assert_eq!(data.commit_data.len(), 2);
    // Presentation order: both authors start 2023-01-01; a@x.com was active
    // later, so it comes first.
    assert_eq!(data.commit_data[0].email, "a@x.com");
    assert_eq!(data.commit_data[1].email, "b@x.com");
    // Three events survive into the global heat map.
    assert_eq!(data.heatmap_data.max_commits, 2);
    assert!(data.author_timeline_data.contains_key("a@x.com"));
    assert!(data.author_timeline_data.contains_key("b@x.com"));
}

#[test]
fn test_format_repo_path_current_directory() {
    assert_eq!(format_repo_path("."), "Current Directory");
}

#[test]
fn test_format_repo_path_short_path_verbatim() {
    assert_eq!(format_repo_path("/home/user/project"), "/home/user/project");
}

#[test]
fn test_format_repo_path_long_path_basename() {
    let long = "/very/long/path/that/goes/on/and/on/and/on/forever/project-name";
    assert_eq!(format_repo_path(long), "project-name");
}

#[test]
fn test_format_repo_path_long_path_trailing_slash() {
    let long = "/very/long/path/that/goes/on/and/on/and/on/forever/project-name/";
    assert_eq!(format_repo_path(long), "project-name");
}

#[test]
fn test_args_holds_the_surface() {
    let args = Args::new(
        "/repo".to_string(),
        Some(100),
        Some("2023-01-01".to_string()),
        None,
    );
    assert_eq!(args.path, "/repo");
    assert_eq!(args.max_commits, Some(100));
    assert_eq!(args.since.as_deref(), Some("2023-01-01"));
    assert_eq!(args.until, None);
}

#[test]
fn test_format_repo_path_counts_bytes_not_chars() {
    // 23 two-byte characters between the separators: 37 characters, but 60
    // bytes, so the path counts as long and only the final component shows.
    let long = "/ééééééééééééééééééééééé/project-name";
    assert_eq!(long.chars().count(), 37);
    assert_eq!(long.len(), 60);
    assert_eq!(format_repo_path(long), "project-name");

    // The same shape within fifty bytes stays verbatim.
    let short = "/ééééé/project-name";
    assert_eq!(short.len(), 24);
    assert_eq!(format_repo_path(short), short);
}

#[test]
fn test_format_repo_path_drops_trailing_dot_component() {
    // A trailing lone-dot component names the directory before it, as a
    // path's file name does.
    let long = "/very/long/path/that/goes/on/and/on/and/on/forever/project-name/.";
    assert_eq!(format_repo_path(long), "project-name");

    let long_slash = "/very/long/path/that/goes/on/and/on/and/on/forever/project-name/./";
    assert_eq!(format_repo_path(long_slash), "project-name");

    let dotted = "/very/long/path/that/goes/on/and/on/and/forever/name/././.";
    assert_eq!(format_repo_path(dotted), "name");
}

#[test]
fn test_format_repo_path_parent_reference_falls_back() {
    // A path ending in a parent reference has no file name of its own: the
    // whole path is shown.
    let long = "/very/long/path/that/goes/on/and/on/and/on/forever/project/..";
    assert_eq!(format_repo_path(long), long);
}
