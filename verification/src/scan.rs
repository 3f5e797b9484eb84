//! Scanning the manifests of a snapshot for dangling delete files.

use crate::dangling::{self, dedup_by_key};
use crate::delete_file_index::try_infer_single_referenced_data_file_from_bounds;
use crate::index::KeyIndex;
use crate::keys::{PartitionKey, PartitionKeyView};
use crate::laws;
use crate::manifest::{DataContentType, DataFile, Manifest, ManifestEntry};
use vstd::prelude::*;

verus! {

/// Some data file of the snapshot has this path.
pub open spec fn is_live_path(entries: Seq<ManifestEntry>, path: Seq<char>) -> bool {
    exists|i: int|
        0 <= i < entries.len() && (#[trigger] entries[i]).is_live_data()
            && entries[i].data_file.file_path@ == path
}

/// The lesser of two numbers, where there are two.
spec fn lesser(a: Option<i64>, b: Option<i64>) -> Option<i64> {
    match (a, b) {
        (Some(x), Some(y)) => if y < x {
            b
        } else {
            a
        },
        (None, _) => b,
        (_, None) => a,
    }
}

fn min_of(a: Option<i64>, b: i64) -> (r: i64)
    ensures
        Some(r) == lesser(a, Some(b)),
{
    match a {
        Some(x) => if b < x {
            b
        } else {
            x
        },
        None => b,
    }
}

/// One more entry lowers the least sequence number, or leaves it.
proof fn lemma_min_push(
    entries: Seq<ManifestEntry>,
    entry: ManifestEntry,
    scope: Option<PartitionKeyView>,
    min: Option<i64>,
)
    requires
        dangling::is_min_data_seq(entries, scope, min),
    ensures
        dangling::is_min_data_seq(
            entries.push(entry),
            scope,
            lesser(min, dangling::data_seq(entry, scope)),
        ),
{
    let longer = entries.push(entry);
    let new_min = lesser(min, dangling::data_seq(entry, scope));
    assert(longer[entries.len() as int] == entry);
    if let Some(m) = new_min {
        if min == Some(m) {
            let i = choose|i: int|
                0 <= i < entries.len() && dangling::data_seq(#[trigger] entries[i], scope)
                    == Some(m);
            assert(longer[i] == entries[i]);
        }
    }
}

/// One more entry adds its path, if it is a data file of the snapshot.
proof fn lemma_live_path_push(entries: Seq<ManifestEntry>, entry: ManifestEntry, path: Seq<char>)
    ensures
        is_live_path(entries.push(entry), path) <==> is_live_path(entries, path) || (
        entry.is_live_data() && entry.data_file.file_path@ == path),
{
    let longer = entries.push(entry);
    if is_live_path(entries, path) {
        let i = choose|i: int|
            0 <= i < entries.len() && (#[trigger] entries[i]).is_live_data()
                && entries[i].data_file.file_path@ == path;
        assert(longer[i] == entries[i]);
    }
    if entry.is_live_data() && entry.data_file.file_path@ == path {
        assert(longer[entries.len() as int] == entry);
    }
}

/// The value of a key, if it has one.
spec fn looked_up<K, T>(m: Map<K, T>, k: K) -> Option<T> {
    if m.contains_key(k) {
        Some(m[k])
    } else {
        None
    }
}

/// What the decisions need to know of a snapshot's data files.
pub struct LiveData {
    data_file_paths: KeyIndex<String, ()>,
    partition_min_seq: KeyIndex<PartitionKey, i64>,
    global_min_data_seq: Option<i64>,
    entries: Ghost<Seq<ManifestEntry>>,
}

impl View for LiveData {
    type V = Seq<ManifestEntry>;

    /// The entries recorded so far.
    closed spec fn view(&self) -> Seq<ManifestEntry> {
        self.entries@
    }
}

impl LiveData {
    /// The paths and the least sequence numbers are those of the data files
    /// among the entries.
    pub closed spec fn wf(self) -> bool {
        &&& self.data_file_paths.wf()
        &&& self.partition_min_seq.wf()
        &&& forall|path: Seq<char>| #[trigger]
            self.data_file_paths@.contains_key(path) <==> is_live_path(self@, path)
        &&& forall|key: PartitionKeyView|
            dangling::is_min_data_seq(
                self@,
                Some(key),
                #[trigger] looked_up(self.partition_min_seq@, key),
            )
        &&& dangling::is_min_data_seq(self@, None, self.global_min_data_seq)
    }

    /// No entries.
    pub fn new() -> (r: Self)
        ensures
            r.wf(),
            r@ == Seq::<ManifestEntry>::empty(),
    {
        LiveData {
            data_file_paths: KeyIndex::new(),
            partition_min_seq: KeyIndex::new(),
            global_min_data_seq: None,
            entries: Ghost(Seq::empty()),
        }
    }

    /// Records one more entry.
    pub fn record(&mut self, entry: &ManifestEntry)
        requires
            old(self).wf(),
        ensures
            final(self).wf(),
            final(self)@ == old(self)@.push(*entry),
    {
        let ghost before = *self;
        proof {
            assert forall|path: Seq<char>| #[trigger]
                is_live_path(before@.push(*entry), path) <==> is_live_path(before@, path) || (
                entry.is_live_data() && entry.data_file.file_path@ == path) by {
                lemma_live_path_push(before@, *entry, path);
            }
            assert forall|key: PartitionKeyView|
                #![trigger looked_up(before.partition_min_seq@, key)]
                dangling::is_min_data_seq(
                    before@.push(*entry),
                    Some(key),
                    lesser(
                        looked_up(before.partition_min_seq@, key),
                        dangling::data_seq(*entry, Some(key)),
                    ),
                ) by {
                lemma_min_push(
                    before@,
                    *entry,
                    Some(key),
                    looked_up(before.partition_min_seq@, key),
                );
            }
            lemma_min_push(before@, *entry, None, before.global_min_data_seq);
        }
        self.entries = Ghost(self.entries@.push(*entry));
        if entry.is_alive() && entry.data_file.content == DataContentType::Data {
            self.data_file_paths.insert(entry.data_file.file_path.clone(), ());
            if let Some(seq) = entry.sequence_number {
                let key = entry.data_file.partition_key();
                let min: i64 = min_of(self.partition_min_seq.get(&key), seq);
                self.partition_min_seq.insert(key, min);
                self.global_min_data_seq = Some(min_of(self.global_min_data_seq, seq));
            }
        }
        proof {
            assert forall|key: PartitionKeyView|
                dangling::is_min_data_seq(
                    self@,
                    Some(key),
                    #[trigger] looked_up(self.partition_min_seq@, key),
                ) by {
                assert(looked_up(self.partition_min_seq@, key) == lesser(
                    looked_up(before.partition_min_seq@, key),
                    dangling::data_seq(*entry, Some(key)),
                ));
            }
        }
    }

    /// Whether a position delete of the snapshot is dangling.
    pub fn position_delete_is_dangling(&self, delete: &ManifestEntry) -> (r: bool)
        requires
            self.wf(),
            delete.is_live_position_delete(),
        ensures
            r == dangling::is_dangling(self@, *delete),
    {
        if let Some(path) = &delete.data_file.referenced_data_file {
            // Scoped by path: dangling if that data file is no longer there.
            proof {
                laws::law_scoped_position_delete(self@, *delete, path@);
            }
            self.data_file_paths.get(path).is_none()
        } else if let Some(path) = try_infer_single_referenced_data_file_from_bounds(
            &delete.data_file,
        ) {
            // The bounds of its `file_path` column scope it as well.
            proof {
                laws::law_scoped_position_delete(self@, *delete, path@);
            }
            self.data_file_paths.get(&path).is_none()
        } else if let Some(seq) = delete.sequence_number {
            let min: Option<i64> = self.partition_min_seq.get(&delete.data_file.partition_key());
            proof {
                assert(min == looked_up(
                    self.partition_min_seq@,
                    delete.data_file.partition_of(),
                ));
                laws::law_position_delete_by_sequence_number(self@, *delete, seq, min);
            }
            match min {
                Some(min_seq) => seq < min_seq,
                None => true,
            }
        } else {
            // Nothing says what it reaches.
            false
        }
    }

    /// Whether an equality delete of the snapshot is dangling.
    pub fn equality_delete_is_dangling(&self, delete: &ManifestEntry) -> (r: bool)
        requires
            self.wf(),
            delete.is_live_equality_delete(),
        ensures
            r == dangling::is_dangling(self@, *delete),
    {
        if let Some(seq) = delete.sequence_number {
            let min: Option<i64> = if delete.data_file.partition.fields.is_empty() {
                // Without partition values it reaches the whole table.
                self.global_min_data_seq
            } else {
                self.partition_min_seq.get(&delete.data_file.partition_key())
            };
            proof {
                assert(delete.data_file.partition@.len() > 0 ==> min == looked_up(
                    self.partition_min_seq@,
                    delete.data_file.partition_of(),
                ));
                laws::law_equality_delete_by_sequence_number(self@, *delete, seq, min);
            }
            match min {
                Some(min_seq) => seq <= min_seq,
                None => true,
            }
        } else {
            false
        }
    }

    /// Whether an entry is a dangling delete file of the snapshot.
    pub fn is_dangling(&self, entry: &ManifestEntry) -> (r: bool)
        requires
            self.wf(),
        ensures
            r == dangling::is_dangling(self@, *entry),
    {
        entry.is_alive() && match entry.data_file.content {
            DataContentType::Data => false,
            DataContentType::PositionDeletes => self.position_delete_is_dangling(entry),
            DataContentType::EqualityDeletes => self.equality_delete_is_dangling(entry),
        }
    }

    /// The files of the dangling entries, in order.
    fn select_dangling(&self, deletes: Vec<ManifestEntry>) -> (r: Vec<DataFile>)
        requires
            self.wf(),
        ensures
            r@ == dangling::files_where(
                deletes@,
                |e: ManifestEntry| dangling::is_dangling(self@, e),
            ),
    {
        let ghost all = deletes@;
        let ghost keep = |e: ManifestEntry| dangling::is_dangling(self@, e);
        let mut files: Vec<DataFile> = Vec::new();
        assert(all.take(0).filter(keep) =~= Seq::empty()) by {
            reveal(Seq::filter);
        }
        for delete in iter: deletes
            invariant
                iter.seq() == all,
                self.wf(),
                keep == (|e: ManifestEntry| dangling::is_dangling(self@, e)),
                files@ =~= dangling::files_where(all.take(iter.index() as int), keep),
        {
            proof {
                let before = all.take(iter.index() as int);
                assert(all.take(iter.index() + 1) =~= before.push(delete));
                before.lemma_filter_push(delete, keep);
            }
            if self.is_dangling(&delete) {
                files.push(delete.data_file);
            }
        }
        assert(all.take(all.len() as int) =~= all);
        files
    }
}

/// Filtering twice keeps what both predicates hold of.
pub proof fn lemma_filter_filter(
    entries: Seq<ManifestEntry>,
    first: spec_fn(ManifestEntry) -> bool,
    second: spec_fn(ManifestEntry) -> bool,
    both: spec_fn(ManifestEntry) -> bool,
)
    requires
        forall|e: ManifestEntry| #[trigger] both(e) == (first(e) && second(e)),
    ensures
        entries.filter(first).filter(second) == entries.filter(both),
    decreases entries.len(),
{
    reveal(Seq::filter);
    if entries.len() > 0 {
        let rest = entries.drop_last();
        let last = entries.last();
        lemma_filter_filter(rest, first, second, both);
        assert(both(last) == (first(last) && second(last)));
        rest.filter(first).lemma_filter_push(last, second);
    }
}

/// Holds of the position deletes of the snapshot.
spec fn position_delete() -> spec_fn(ManifestEntry) -> bool {
    |e: ManifestEntry| e.is_live_position_delete()
}

/// Holds of the equality deletes of the snapshot that have a sequence number.
spec fn numbered_equality_delete() -> spec_fn(ManifestEntry) -> bool {
    |e: ManifestEntry| e.is_live_equality_delete() && e.sequence_number is Some
}

/// The scan of a snapshot's manifests, entry by entry.
pub struct SnapshotScan {
    live: LiveData,
    pos_deletes: Vec<ManifestEntry>,
    eq_deletes: Vec<ManifestEntry>,
}

impl View for SnapshotScan {
    type V = Seq<ManifestEntry>;

    /// The entries scanned so far.
    closed spec fn view(&self) -> Seq<ManifestEntry> {
        self.live@
    }
}

impl SnapshotScan {
    /// The deletes that were set aside are those among the entries.
    pub closed spec fn wf(self) -> bool {
        &&& self.live.wf()
        &&& self.pos_deletes@ == self@.filter(position_delete())
        &&& self.eq_deletes@ == self@.filter(numbered_equality_delete())
    }

    /// A scan that has seen nothing yet.
    pub fn new() -> (r: Self)
        ensures
            r.wf(),
            r@ == Seq::<ManifestEntry>::empty(),
    {
        proof {
            reveal(Seq::filter);
        }
        let r = SnapshotScan {
            live: LiveData::new(),
            pos_deletes: Vec::new(),
            eq_deletes: Vec::new(),
        };
        assert(r.pos_deletes@ =~= r@.filter(position_delete()));
        assert(r.eq_deletes@ =~= r@.filter(numbered_equality_delete()));
        r
    }

    /// Scans one entry. An entry that is not alive only counts as seen.
    pub fn record(&mut self, entry: ManifestEntry)
        requires
            old(self).wf(),
        ensures
            final(self).wf(),
            final(self)@ == old(self)@.push(entry),
    {
        proof {
            self@.lemma_filter_push(entry, position_delete());
            self@.lemma_filter_push(entry, numbered_equality_delete());
        }
        self.live.record(&entry);
        if entry.is_alive() {
            match entry.data_file.content {
                DataContentType::Data => {},
                DataContentType::PositionDeletes => {
                    self.pos_deletes.push(entry);
                },
                DataContentType::EqualityDeletes => {
                    if entry.sequence_number.is_some() {
                        self.eq_deletes.push(entry);
                    }
                },
            }
        }
    }

    /// Scans the entries of one manifest.
    pub fn record_manifest(&mut self, manifest: Manifest)
        requires
            old(self).wf(),
        ensures
            final(self).wf(),
            final(self)@ == old(self)@ + manifest.entries@,
    {
        let ghost before = self@;
        let ghost all = manifest.entries@;
        for entry in iter: manifest.entries
            invariant
                iter.seq() == all,
                self.wf(),
                self@ =~= before + all.take(iter.index() as int),
        {
            assert(all.take(iter.index() + 1) =~= all.take(iter.index() as int).push(entry));
            self.record(entry);
        }
        assert(all.take(all.len() as int) =~= all);
    }

    /// Ends the scan, with the delete files to remove.
    pub fn into_dangling_files(self) -> (r: Vec<DataFile>)
        requires
            self.wf(),
        ensures
            r@ == dangling::dangling_files(self@),
    {
        let ghost entries = self@;
        let SnapshotScan { live, pos_deletes, eq_deletes } = self;
        proof {
            let dangles = |e: ManifestEntry| dangling::is_dangling(entries, e);
            lemma_filter_filter(
                entries,
                position_delete(),
                dangles,
                dangling::dangling_position(entries),
            );
            lemma_filter_filter(
                entries,
                numbered_equality_delete(),
                dangles,
                dangling::dangling_equality(entries),
            );
        }
        let mut files: Vec<DataFile> = live.select_dangling(pos_deletes);
        let mut more: Vec<DataFile> = live.select_dangling(eq_deletes);
        files.append(&mut more);
        assert(files@ =~= dangling::all_dangling_files(entries));
        dedup_by_key(files)
    }
}

} // verus!
