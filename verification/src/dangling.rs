//! Which delete files are dangling.

use crate::index::KeyIndex;
use crate::keys::{delete_file_key, FileKey, PartitionKeyView};
use crate::manifest::{DataContentType, DataFile, ManifestEntry};
use vstd::prelude::*;

verus! {

impl ManifestEntry {
    /// A data file of the snapshot.
    pub open spec fn is_live_data(self) -> bool {
        self.alive() && self.data_file.content == DataContentType::Data
    }

    /// A position delete file or a deletion vector of the snapshot.
    pub open spec fn is_live_position_delete(self) -> bool {
        self.alive() && self.data_file.content == DataContentType::PositionDeletes
    }

    /// An equality delete file of the snapshot.
    pub open spec fn is_live_equality_delete(self) -> bool {
        self.alive() && self.data_file.content == DataContentType::EqualityDeletes
    }
}

/// The two files belong to the same partition.
pub open spec fn same_partition(a: DataFile, b: DataFile) -> bool {
    a.partition_of() == b.partition_of()
}

/// The delete file has rows of the data file in its reach.
///
/// - A position delete that is scoped to one data file reaches that file.
/// - Any other position delete reaches the data files of its partition that are
///   no newer than itself.
/// - An equality delete reaches the older data files of its partition; one
///   without partition values reaches the older data files of the whole table.
///
/// Without a sequence number a data file is not known to be older or newer than
/// anything.
pub open spec fn applies_to(delete: ManifestEntry, data: ManifestEntry) -> bool {
    match delete.data_file.content {
        DataContentType::Data => false,
        DataContentType::PositionDeletes => match delete.data_file.single_target() {
            Some(path) => data.data_file.file_path@ == path,
            None => {
                &&& same_partition(delete.data_file, data.data_file)
                &&& delete.sequence_number matches Some(s)
                &&& data.sequence_number matches Some(d)
                &&& d <= s
            },
        },
        DataContentType::EqualityDeletes => {
            &&& delete.data_file.partition@.len() == 0 || same_partition(
                delete.data_file,
                data.data_file,
            )
            &&& delete.sequence_number matches Some(s)
            &&& data.sequence_number matches Some(d)
            &&& d < s
        },
    }
}

/// The delete file says what it reaches: it is a position delete that is scoped
/// to one data file, or it has a sequence number.
pub open spec fn has_known_reach(delete: ManifestEntry) -> bool {
    ||| delete.sequence_number is Some
    ||| delete.data_file.content == DataContentType::PositionDeletes
        && delete.data_file.single_target() is Some
}

/// The entry is a delete file of the snapshot that reaches none of the
/// snapshot's data files. `entries` lists the files of the snapshot.
pub open spec fn is_dangling(entries: Seq<ManifestEntry>, delete: ManifestEntry) -> bool {
    &&& delete.is_live_position_delete() || delete.is_live_equality_delete()
    &&& has_known_reach(delete)
    &&& forall|i: int|
        0 <= i < entries.len() && entries[i].is_live_data() ==> !applies_to(
            delete,
            #[trigger] entries[i],
        )
}

/// The files of the entries that `keep` holds of, in the order of the entries.
pub open spec fn files_where(
    entries: Seq<ManifestEntry>,
    keep: spec_fn(ManifestEntry) -> bool,
) -> Seq<DataFile> {
    entries.filter(keep).map_values(|e: ManifestEntry| e.data_file)
}

/// Some file of `files` has the identity of `file`.
pub open spec fn has_key_of(files: Seq<DataFile>, file: DataFile) -> bool {
    exists|i: int| 0 <= i < files.len() && (#[trigger] files[i]).key() == file.key()
}

/// The first file of each identity, in order.
pub open spec fn first_of_each_key(files: Seq<DataFile>) -> Seq<DataFile>
    decreases files.len(),
{
    if files.len() == 0 {
        files
    } else {
        let rest = files.drop_last();
        if has_key_of(rest, files.last()) {
            first_of_each_key(rest)
        } else {
            first_of_each_key(rest).push(files.last())
        }
    }
}

/// Holds of the dangling position deletes of the snapshot.
pub open spec fn dangling_position(entries: Seq<ManifestEntry>) -> spec_fn(ManifestEntry) -> bool {
    |e: ManifestEntry| e.is_live_position_delete() && is_dangling(entries, e)
}

/// Holds of the dangling equality deletes of the snapshot.
pub open spec fn dangling_equality(entries: Seq<ManifestEntry>) -> spec_fn(ManifestEntry) -> bool {
    |e: ManifestEntry| e.is_live_equality_delete() && is_dangling(entries, e)
}

/// The dangling delete files of the snapshot: the position deletes, then the
/// equality deletes, each in the order of the entries.
pub open spec fn all_dangling_files(entries: Seq<ManifestEntry>) -> Seq<DataFile> {
    files_where(entries, dangling_position(entries)) + files_where(
        entries,
        dangling_equality(entries),
    )
}

/// The delete files to remove from the snapshot: the dangling ones, each
/// identity once.
pub open spec fn dangling_files(entries: Seq<ManifestEntry>) -> Seq<DataFile> {
    first_of_each_key(all_dangling_files(entries))
}

/// The sequence number of a data file of the snapshot; with a `scope`, only of
/// one that belongs to that partition.
pub open spec fn data_seq(e: ManifestEntry, scope: Option<PartitionKeyView>) -> Option<i64> {
    if e.is_live_data() && (scope matches Some(key) ==> e.data_file.partition_of() == key) {
        e.sequence_number
    } else {
        None
    }
}

/// `min` is the least sequence number of the snapshot's data files in `scope`,
/// or `None` where there is none.
pub open spec fn is_min_data_seq(
    entries: Seq<ManifestEntry>,
    scope: Option<PartitionKeyView>,
    min: Option<i64>,
) -> bool {
    match min {
        None => forall|i: int|
            0 <= i < entries.len() ==> data_seq(#[trigger] entries[i], scope) is None,
        Some(m) => {
            &&& exists|i: int|
                0 <= i < entries.len() && data_seq(#[trigger] entries[i], scope) == Some(m)
            &&& forall|i: int|
                0 <= i < entries.len() ==> (data_seq(#[trigger] entries[i], scope) matches Some(s)
                    ==> m <= s)
        },
    }
}

/// The identities of a longer list.
pub proof fn lemma_has_key_of_push(files: Seq<DataFile>, last: DataFile, file: DataFile)
    ensures
        has_key_of(files.push(last), file) <==> has_key_of(files, file) || last.key()
            == file.key(),
{
    let longer = files.push(last);
    if has_key_of(files, file) {
        let i = choose|i: int| 0 <= i < files.len() && (#[trigger] files[i]).key() == file.key();
        assert(longer[i] == files[i]);
    }
    if last.key() == file.key() {
        assert(longer[files.len() as int] == last);
    }
}

/// Keeps the first file of each identity, in order.
pub fn dedup_by_key(files: Vec<DataFile>) -> (r: Vec<DataFile>)
    ensures
        r@ == first_of_each_key(files@),
{
    let ghost all = files@;
    let mut seen: KeyIndex<FileKey, ()> = KeyIndex::new();
    let mut kept: Vec<DataFile> = Vec::new();
    for file in iter: files
        invariant
            iter.seq() == all,
            seen.wf(),
            forall|file: DataFile|
                #![trigger has_key_of(all.take(iter.index() as int), file)]
                seen@.contains_key(file.key()) <==> has_key_of(
                    all.take(iter.index() as int),
                    file,
                ),
            kept@ == first_of_each_key(all.take(iter.index() as int)),
    {
        let ghost before = all.take(iter.index() as int);
        let ghost after = all.take(iter.index() + 1);
        assert(after.drop_last() =~= before);
        assert(after =~= before.push(file));
        proof {
            assert forall|other: DataFile|
                #[trigger] has_key_of(after, other) <==> has_key_of(before, other) || file.key()
                    == other.key() by {
                lemma_has_key_of_push(before, file, other);
            }
        }
        let key = delete_file_key(&file);
        match seen.get(&key) {
            Some(_) => {},
            None => {
                seen.insert(key, ());
                kept.push(file);
            },
        }
    }
    assert(all.take(all.len() as int) =~= all);
    kept
}

} // verus!
