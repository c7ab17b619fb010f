//! Commit-history aggregation and interactive view state.
//!
//! The crate ingests a stream of author-attributed, dated events, folds it
//! into per-author summaries and daily timelines, projects timelines onto a
//! calendar-overlay heat map, and drives the keystroke-by-keystroke state of
//! an interactive browser over those aggregates. All of that logic is
//! verified; reading the repository and painting the terminal live outside
//! the crate.

mod cli;
mod clock;
mod date;
mod datemap;
mod heatmap;
mod repository;
mod sorting;
mod strmap;
mod strutil;
mod tui;
mod ui;
mod user_commit_info;

pub use cli::Args;
pub use date::Date;
pub use datemap::DateCountMap;
pub use heatmap::HeatMapData;
pub use repository::{
    build_repository_data, collect_commit_info, prepare_commit_data, prepare_heatmap_data_from_map,
    project_union, CommitEvent, RepositoryConfig, RepositoryData,
};
pub use sorting::{SortColumn, SortDirection, SortRule};
pub use strmap::{AuthorHeatmapMap, AuthorTimelineMap};
pub use tui::{AppState, KeyInput};
pub use ui::format_repo_path;
pub use user_commit_info::{CommitData, TimelineData};
