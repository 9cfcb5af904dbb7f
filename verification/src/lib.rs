//! A Conventional Commits linter and changelog generator.
pub mod changelog;
pub mod gitlog;
pub mod lint;
pub mod parse;
pub mod subject;
pub mod text;

pub use lint::LintIssue;
pub use parse::ConventionalCommit;
