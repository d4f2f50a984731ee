//! Shell-style glob pattern matching.
//!
//! The crate compiles a glob pattern (`*`, `?`, `[a-z]`, `{a,b}`, `**`,
//! extended `?() *() +() @() !()` groups) into a segment-oriented program,
//! matches it against path strings with a backtracking algorithm, walks a
//! caller-supplied directory tree, and filters results through
//! gitignore-style rules.

pub mod error;
pub mod flags;
pub mod gitignore;
pub mod laws;
pub mod matcher;
pub mod paths;
pub mod pattern;
pub mod tilde;
pub mod walk;

pub use error::ZlobError;
pub use flags::ZlobFlags;
pub use gitignore::GitignoreRules;
pub use paths::zlob_has_wildcards;
pub use paths::zlob_match_paths;
pub use paths::zlob_match_paths_at;
pub use paths::ZlobMatch;
pub use paths::ZlobMatchIter;
pub use pattern::CompiledPattern;
pub use tilde::expand_tilde;
pub use tilde::tilde_prefix;
pub use walk::zlob_walk;
pub use walk::EntryKind;
pub use walk::VEntry;
pub use walk::VTree;
pub use walk::Zlob;
pub use walk::ZlobIter;
