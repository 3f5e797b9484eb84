//! The files of a table, as its manifests list them.

use crate::values::{Literal, Struct};
use std::collections::HashMap;
use vstd::prelude::*;

verus! {

/// What a file holds.
#[derive(Clone, Copy, Debug, PartialEq, Eq, Structural)]
pub enum DataContentType {
    /// Rows of the table.
    Data,
    /// Positions of deleted rows, as a file of its own or as a deletion vector.
    PositionDeletes,
    /// Column values of deleted rows.
    EqualityDeletes,
}

/// How a file is written.
#[derive(Clone, Copy, Debug, PartialEq, Eq, Structural)]
pub enum DataFileFormat {
    Avro,
    Orc,
    Parquet,
    Puffin,
}

/// A data file or a delete file.
#[derive(Clone, Debug, PartialEq, Eq)]
pub struct DataFile {
    pub content: DataContentType,
    pub file_path: String,
    pub file_format: DataFileFormat,
    pub record_count: u64,
    pub file_size_in_bytes: u64,
    /// The partition spec that `partition` follows.
    pub partition_spec_id: i32,
    pub partition: Struct,
    /// The columns that an equality delete compares.
    pub equality_ids: Option<Vec<i32>>,
    /// The one data file that a position delete refers to, where it names it.
    pub referenced_data_file: Option<String>,
    /// Where a deletion vector starts in its file.
    pub content_offset: Option<i64>,
    /// How long a deletion vector is.
    pub content_size_in_bytes: Option<i64>,
    /// The least value of a column, by field id.
    pub lower_bounds: HashMap<i32, Literal>,
    /// The greatest value of a column, by field id.
    pub upper_bounds: HashMap<i32, Literal>,
}

/// What a manifest records about a file.
#[derive(Clone, Copy, Debug, PartialEq, Eq, Structural)]
pub enum ManifestStatus {
    Existing,
    Added,
    Deleted,
}

/// One file of a manifest.
#[derive(Clone, Debug, PartialEq, Eq)]
pub struct ManifestEntry {
    pub status: ManifestStatus,
    pub sequence_number: Option<i64>,
    pub data_file: DataFile,
}

impl ManifestEntry {
    /// The file belongs to the snapshot.
    pub open spec fn alive(self) -> bool {
        self.status != ManifestStatus::Deleted
    }

    /// Whether the file belongs to the snapshot.
    pub fn is_alive(&self) -> (r: bool)
        ensures
            r == self.alive(),
            r == (self.status != ManifestStatus::Deleted),
    {
        self.status != ManifestStatus::Deleted
    }
}

/// A list of files.
#[derive(Clone, Debug, PartialEq, Eq)]
pub struct Manifest {
    pub entries: Vec<ManifestEntry>,
}

} // verus!
