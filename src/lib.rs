//! Project finder: layered scan profiles and a directory scanner that reports
//! project roots or files of interest.

pub mod config;
pub mod expand;
pub mod inherit;
pub mod names;
pub mod pattern;
pub mod scan;
pub mod text;

pub use config::{
    load_defaults, resolve_inheritance, Config, ConfigError, IncludeEntry, IncludeEntryDetailed, Mode, Profile,
    ProfileTable, ResolvedProfile, Session,
};
pub use expand::{expand_with, ExpandError};
pub use names::{trim_session_name, trim_window_name};
pub use pattern::{decide_match, matches_patterns, matches_patterns_with_path};
pub use scan::{children_to_visit, scan_includes, scan_paths, EntryKind, FsEntry, ScanError};
