//! The data file that a position delete is scoped to.

use crate::manifest::DataFile;
use crate::values::{Literal, LiteralView};
use std::collections::HashMap;
use vstd::prelude::*;

verus! {

/// The field id of the `file_path` column of position delete files.
pub const FIELD_ID_POSITIONAL_DELETE_FILE_PATH: i32 = 2147483546;

/// What an optional string stands for.
pub open spec fn optional_string(s: Option<String>) -> Option<Seq<char>> {
    match s {
        Some(s) => Some(s@),
        None => None,
    }
}

/// The bound of the `file_path` column, where there is one.
pub open spec fn path_bound(bounds: Map<i32, Literal>) -> Option<Seq<char>> {
    if bounds.contains_key(FIELD_ID_POSITIONAL_DELETE_FILE_PATH) {
        match bounds[FIELD_ID_POSITIONAL_DELETE_FILE_PATH]@ {
            LiteralView::Str(path) => Some(path),
            _ => None,
        }
    } else {
        None
    }
}

impl DataFile {
    /// The data file that the bounds of the `file_path` column leave as the
    /// only one: both bounds are there, and they are the same path.
    pub open spec fn inferred_target(self) -> Option<Seq<char>> {
        match (path_bound(self.lower_bounds@), path_bound(self.upper_bounds@)) {
            (Some(lower), Some(upper)) => if lower == upper {
                Some(lower)
            } else {
                None
            },
            _ => None,
        }
    }

    /// The one data file that a position delete refers to, where it names it or
    /// its bounds prove it.
    pub open spec fn single_target(self) -> Option<Seq<char>> {
        match self.referenced_data_file {
            Some(path) => Some(path@),
            None => self.inferred_target(),
        }
    }
}

/// Reads the bound of the `file_path` column.
fn bound_of_path(bounds: &HashMap<i32, Literal>) -> (r: Option<&String>)
    ensures
        match r {
            Some(path) => path_bound(bounds@) == Some(path@),
            None => path_bound(bounds@) is None,
        },
{
    match bounds.get(&FIELD_ID_POSITIONAL_DELETE_FILE_PATH) {
        Some(Literal::Str(path)) => Some(path),
        _ => None,
    }
}

/// The single data file that a position delete applies to, as far as the bounds
/// of its `file_path` column prove it: a lower bound and an upper bound that are
/// the same path leave no other.
pub fn try_infer_single_referenced_data_file_from_bounds(file: &DataFile) -> (r: Option<String>)
    ensures
        optional_string(r) == file.inferred_target(),
        r is Some <==> {
            &&& file.lower_bounds@.contains_key(FIELD_ID_POSITIONAL_DELETE_FILE_PATH)
            &&& file.upper_bounds@.contains_key(FIELD_ID_POSITIONAL_DELETE_FILE_PATH)
            &&& file.lower_bounds@[FIELD_ID_POSITIONAL_DELETE_FILE_PATH] matches Literal::Str(lower)
            &&& file.upper_bounds@[FIELD_ID_POSITIONAL_DELETE_FILE_PATH] matches Literal::Str(upper)
            &&& lower@ == upper@
        },
        r matches Some(path) ==> {
            &&& file.lower_bounds@[FIELD_ID_POSITIONAL_DELETE_FILE_PATH] matches Literal::Str(lower)
            &&& path@ == lower@
        },
{
    match (bound_of_path(&file.lower_bounds), bound_of_path(&file.upper_bounds)) {
        (Some(lower), Some(upper)) => if *lower == *upper {
            Some(lower.clone())
        } else {
            None
        },
        _ => None,
    }
}

} // verus!
