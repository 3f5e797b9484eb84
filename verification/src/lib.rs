//! Removal of dangling delete files.
//!
//! A delete file of a table is dangling when it no longer applies to any data
//! file of the current snapshot. [`SnapshotScan`] reads the manifests of a
//! snapshot and finds the dangling ones. [`RemoveDanglingDeleteFilesAction`]
//! starts an [`Execution`], which asks for the table, for its manifests and for
//! the commit that removes what it finds; whoever drives it performs each
//! [`Command`] and hands back the [`Event`] that came of it.
//!
//! [`laws`] and [`runs`] prove what holds of the decisions and of whole runs.

pub mod action;
pub mod dangling;
pub mod delete_file_index;
pub mod error;
pub mod index;
pub mod keys;
pub mod laws;
pub mod manifest;
pub mod runs;
pub mod scan;
pub mod transaction;
pub mod values;

pub use action::{
    Command, CommandView, Event, Execution, ExecutionView, RemoveDanglingDeleteFilesAction,
    TableIdent, GUARD_NOT_BUILT, MAIN_BRANCH, REWRITE_NOT_BUILT,
};
pub use dangling::dedup_by_key;
pub use delete_file_index::{
    try_infer_single_referenced_data_file_from_bounds, FIELD_ID_POSITIONAL_DELETE_FILE_PATH,
};
pub use error::{Error, ErrorKind, ErrorView};
pub use index::{IndexKey, KeyIndex};
pub use keys::{delete_file_key, FileKey, FileKeyView, PartitionKey, PartitionKeyView};
pub use manifest::{
    DataContentType, DataFile, DataFileFormat, Manifest, ManifestEntry, ManifestStatus,
};
pub use scan::{LiveData, SnapshotScan};
pub use transaction::{
    ActionCommit, ActionCommitView, RequireScannedSnapshotAction, RewriteFilesAction, TableRefs,
    TableRequirement, TableRequirementView, TableUpdate, TableUpdateView, Transaction, REF_MOVED,
};
pub use values::{Literal, LiteralView, Struct};
