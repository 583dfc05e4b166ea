//! Semantic versioning from conventional commits.
//!
//! The crate works out the next semantic version number of a project, and the
//! level of the change, from the current version and the conventional commits
//! made since that version was tagged.
pub mod aggregation;
pub mod calculator;
pub mod conventional;
pub mod decimal;
pub mod decision;
pub mod error;
pub mod ordering;
pub mod rules;
pub mod semantic;
pub mod tag_text;
pub mod tags;
pub mod text;

pub use calculator::{Answer, Change, ForceLevel, VersionCalculator};
pub use conventional::{ConventionalCommit, ConventionalCommits, TypeHierarchy};
pub use decision::{
    calculate, can_calculate, check_level, has_existing_pre_release, output_text, ForceOptions,
};
pub use error::Error;
pub use semantic::{Level, Semantic, SemanticPreRelease};
pub use tags::latest;
