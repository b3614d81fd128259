//! A path-exclusion decision engine: user-configured glob allow/deny
//! filtering (`Filter`) and version-control-style nested ignore files
//! (`Ignore`), each queryable per candidate path.

pub mod filter;
pub mod lines;
pub mod matcher;
pub mod paths;
pub mod pattern;
pub mod repo;

pub use filter::Filter;
pub use lines::split_lines;
pub use matcher::{build_ignore, rules_for_file, Ignore, RuleBuildError, Verdict};
pub use paths::{ancestors, is_absolute, join_path, parent_dir};
pub use pattern::{CompiledPattern, PatternError};
pub use repo::{locate_repo, DirProbe, RepoInfo};
