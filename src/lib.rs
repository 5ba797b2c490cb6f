//! Facts about a parsed codebase: declared functions, imports, re-exports,
//! macros, paths and calls, each with its lexical scope, and the indexes,
//! queries, diffs and rules built on them.
pub mod model;
pub mod syntax;
pub mod text;
pub mod extract;
pub mod index;
pub mod klepto;
pub mod imports_ext;
pub mod query;
pub mod find;
pub mod snapshot;
pub mod use_sites;
pub mod rules;
pub mod report;

pub use crate::find::Finder;
pub use crate::imports_ext::{ImportSummary, ImportVecExt};
pub use crate::index::{EnclosingIndex, FnSpan};
pub use crate::klepto::Klepto;
pub use crate::query::{FnQuery, ImportQuery};
pub use crate::report::findings_to_table;
pub use crate::rules::{Rule, RuleRunner};
pub use crate::snapshot::{ExportFinger, FnFinger, Snapshot, SnapshotDiff};
