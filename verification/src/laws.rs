//! What holds of the decisions as a whole.

use crate::dangling;
use crate::delete_file_index::{self, FIELD_ID_POSITIONAL_DELETE_FILE_PATH};
use crate::keys::{FileKeyView, PartitionKeyView};
use crate::manifest::{DataContentType, DataFile, ManifestEntry, ManifestStatus};
use crate::scan;
use crate::values::{Literal, Struct};
use vstd::prelude::*;

verus! {

/// A position delete that is scoped to one data file, by name or by its bounds,
/// is dangling exactly when no data file of the snapshot has that path.
/// Sequence numbers and partitions have no say.
pub proof fn law_scoped_position_delete(
    entries: Seq<ManifestEntry>,
    delete: ManifestEntry,
    path: Seq<char>,
)
    requires
        delete.is_live_position_delete(),
        delete.data_file.single_target() == Some(path),
    ensures
        dangling::is_dangling(entries, delete) <==> !scan::is_live_path(entries, path),
{
    if scan::is_live_path(entries, path) {
        let i = choose|i: int|
            0 <= i < entries.len() && (#[trigger] entries[i]).is_live_data()
                && entries[i].data_file.file_path@ == path;
        assert(dangling::applies_to(delete, entries[i]));
    }
}

/// Bounds that meet leave one path: whatever order the bounds are taken in, as
/// long as two paths that each come no later than the other are the same, a path
/// between the bounds is the inferred one.
pub proof fn law_bounds_leave_one_path(
    file: DataFile,
    no_later: spec_fn(Seq<char>, Seq<char>) -> bool,
    lower: Seq<char>,
    upper: Seq<char>,
    path: Seq<char>,
)
    requires
        vstd::relations::antisymmetric(no_later),
        delete_file_index::path_bound(file.lower_bounds@) == Some(lower),
        delete_file_index::path_bound(file.upper_bounds@) == Some(upper),
        file.inferred_target() is Some,
        no_later(lower, path),
        no_later(path, upper),
    ensures
        file.inferred_target() == Some(path),
{
}

/// A position delete that is not scoped to one data file is dangling exactly
/// when its sequence number is less than the least of the data files in its
/// partition, or there is none.
pub proof fn law_position_delete_by_sequence_number(
    entries: Seq<ManifestEntry>,
    delete: ManifestEntry,
    seq: i64,
    min: Option<i64>,
)
    requires
        delete.is_live_position_delete(),
        delete.data_file.single_target() is None,
        delete.sequence_number == Some(seq),
        dangling::is_min_data_seq(entries, Some(delete.data_file.partition_of()), min),
    ensures
        dangling::is_dangling(entries, delete) <==> (min matches Some(m) ==> seq < m),
{
    let scope = Some(delete.data_file.partition_of());
    if let Some(m) = min {
        let i = choose|i: int|
            0 <= i < entries.len() && dangling::data_seq(#[trigger] entries[i], scope) == Some(m);
        assert(dangling::applies_to(delete, entries[i]) <==> m <= seq);
    }
    assert forall|i: int|
        0 <= i < entries.len() && entries[i].is_live_data() && dangling::applies_to(
            delete,
            #[trigger] entries[i],
        ) implies min matches Some(m) && m <= seq by {
        assert(dangling::data_seq(entries[i], scope) == entries[i].sequence_number);
    }
}

/// The data files that an equality delete is held against: those of its
/// partition, or of the whole table where it has no partition values.
pub open spec fn equality_scope(file: DataFile) -> Option<PartitionKeyView> {
    if file.partition@.len() == 0 {
        None
    } else {
        Some(file.partition_of())
    }
}

/// An equality delete is dangling exactly when its sequence number is at most
/// the least of the data files that it is held against, or there is none.
pub proof fn law_equality_delete_by_sequence_number(
    entries: Seq<ManifestEntry>,
    delete: ManifestEntry,
    seq: i64,
    min: Option<i64>,
)
    requires
        delete.is_live_equality_delete(),
        delete.sequence_number == Some(seq),
        dangling::is_min_data_seq(entries, equality_scope(delete.data_file), min),
    ensures
        dangling::is_dangling(entries, delete) <==> (min matches Some(m) ==> seq <= m),
{
    let scope = equality_scope(delete.data_file);
    if let Some(m) = min {
        let i = choose|i: int|
            0 <= i < entries.len() && dangling::data_seq(#[trigger] entries[i], scope) == Some(m);
        assert(dangling::applies_to(delete, entries[i]) <==> m < seq);
    }
    assert forall|i: int|
        0 <= i < entries.len() && entries[i].is_live_data() && dangling::applies_to(
            delete,
            #[trigger] entries[i],
        ) implies min matches Some(m) && m < seq by {
        assert(dangling::data_seq(entries[i], scope) == entries[i].sequence_number);
    }
}

/// A delete file that reaches some data file of the snapshot is not dangling.
pub proof fn law_applicable_delete_is_kept(
    entries: Seq<ManifestEntry>,
    delete: ManifestEntry,
    i: int,
)
    requires
        0 <= i < entries.len(),
        entries[i].is_live_data(),
        dangling::applies_to(delete, entries[i]),
    ensures
        !dangling::is_dangling(entries, delete),
{
}

/// A delete file that does not say what it reaches is not dangling.
pub proof fn law_unknown_reach_is_kept(entries: Seq<ManifestEntry>, delete: ManifestEntry)
    requires
        !dangling::has_known_reach(delete),
    ensures
        !dangling::is_dangling(entries, delete),
{
}

/// Where the snapshot has no data files, every delete file of it that says what
/// it reaches is dangling.
pub proof fn law_no_data_no_deletes(entries: Seq<ManifestEntry>, delete: ManifestEntry)
    requires
        forall|i: int| 0 <= i < entries.len() ==> !(#[trigger] entries[i]).is_live_data(),
        delete.is_live_position_delete() || delete.is_live_equality_delete(),
        dangling::has_known_reach(delete),
    ensures
        dangling::is_dangling(entries, delete),
{
}

/// A delete file that is not scoped by a path is held against its own partition
/// alone: one more data file of another partition does not change the decision.
/// An equality delete without partition values is held against all of them.
pub proof fn law_partitions_are_isolated(
    entries: Seq<ManifestEntry>,
    delete: ManifestEntry,
    other: ManifestEntry,
)
    requires
        delete.is_live_position_delete() && delete.data_file.single_target() is None
            || delete.is_live_equality_delete() && delete.data_file.partition@.len() > 0,
        !dangling::same_partition(delete.data_file, other.data_file),
    ensures
        dangling::is_dangling(entries.push(other), delete) == dangling::is_dangling(
            entries,
            delete,
        ),
{
    let longer = entries.push(other);
    if dangling::is_dangling(longer, delete) {
        assert forall|i: int|
            0 <= i < entries.len() && entries[i].is_live_data() implies !dangling::applies_to(
            delete,
            #[trigger] entries[i],
        ) by {
            assert(longer[i] == entries[i]);
        }
    }
}

/// Each identity is removed once.
pub proof fn law_no_identity_twice(entries: Seq<ManifestEntry>, i: int, j: int)
    requires
        0 <= i < j < dangling::dangling_files(entries).len(),
    ensures
        dangling::dangling_files(entries)[i].key() != dangling::dangling_files(entries)[j].key(),
{
    lemma_first_of_each_key(dangling::all_dangling_files(entries));
}

/// What keeping the first file of each identity comes to.
proof fn lemma_first_of_each_key(files: Seq<DataFile>)
    ensures
        forall|i: int, j: int|
            0 <= i < j < dangling::first_of_each_key(files).len() ==> (
            #[trigger] dangling::first_of_each_key(files)[i]).key() != (
            #[trigger] dangling::first_of_each_key(files)[j]).key(),
        forall|file: DataFile| #[trigger]
            dangling::has_key_of(dangling::first_of_each_key(files), file)
                <==> dangling::has_key_of(files, file),
        forall|i: int|
            0 <= i < dangling::first_of_each_key(files).len() ==> files.contains(
                #[trigger] dangling::first_of_each_key(files)[i],
            ),
    decreases files.len(),
{
    let kept = dangling::first_of_each_key(files);
    if files.len() > 0 {
        let rest = files.drop_last();
        let last = files.last();
        let kept_rest = dangling::first_of_each_key(rest);
        lemma_first_of_each_key(rest);
        assert(files =~= rest.push(last));
        assert forall|file: DataFile| #[trigger]
            dangling::has_key_of(kept, file) <==> dangling::has_key_of(files, file) by {
            dangling::lemma_has_key_of_push(rest, last, file);
            dangling::lemma_has_key_of_push(kept_rest, last, file);
            assert(dangling::has_key_of(kept_rest, file) <==> dangling::has_key_of(rest, file));
            if dangling::has_key_of(rest, last) && last.key() == file.key() {
                let i = choose|i: int|
                    0 <= i < rest.len() && (#[trigger] rest[i]).key() == last.key();
                assert(rest[i].key() == file.key());
            }
        }
        assert forall|i: int| 0 <= i < kept.len() implies files.contains(#[trigger] kept[i]) by {
            if i < kept_rest.len() {
                assert(kept[i] == kept_rest[i]);
                assert(rest.contains(kept_rest[i]));
                let j = choose|j: int| 0 <= j < rest.len() && rest[j] == kept_rest[i];
                assert(files[j] == kept[i]);
            } else {
                assert(files[rest.len() as int] == kept[i]);
            }
        }
        assert forall|i: int, j: int| 0 <= i < j < kept.len() implies (#[trigger] kept[i]).key()
            != (#[trigger] kept[j]).key() by {
            if j < kept_rest.len() {
                assert(kept_rest[i].key() != kept_rest[j].key());
            } else {
                assert(!dangling::has_key_of(kept_rest, last));
                assert(kept[i] == kept_rest[i]);
            }
        }
    }
}

/// Some dangling delete file of the snapshot has this identity.
pub open spec fn is_dangling_identity(entries: Seq<ManifestEntry>, key: FileKeyView) -> bool {
    exists|j: int|
        0 <= j < entries.len() && dangling::is_dangling(entries, #[trigger] entries[j])
            && entries[j].data_file.key() == key
}

/// The files of the entries that `keep` holds of are those, and no others.
proof fn lemma_files_where(entries: Seq<ManifestEntry>, keep: spec_fn(ManifestEntry) -> bool)
    ensures
        forall|i: int|
            0 <= i < dangling::files_where(entries, keep).len() ==> exists|j: int|
                0 <= j < entries.len() && keep(#[trigger] entries[j]) && entries[j].data_file
                    == #[trigger] dangling::files_where(entries, keep)[i],
        forall|j: int|
            0 <= j < entries.len() && keep(#[trigger] entries[j]) ==> dangling::has_key_of(
                dangling::files_where(entries, keep),
                entries[j].data_file,
            ),
{
    let kept = entries.filter(keep);
    let files = dangling::files_where(entries, keep);
    assert forall|i: int| 0 <= i < files.len() implies exists|j: int|
        0 <= j < entries.len() && keep(#[trigger] entries[j]) && entries[j].data_file
            == #[trigger] files[i] by {
        entries.lemma_filter_pred(keep, i);
        assert(kept.contains(kept[i]));
        entries.lemma_filter_contains_rev(keep, kept[i]);
        let j = choose|j: int| 0 <= j < entries.len() && entries[j] == kept[i];
        assert(keep(entries[j]) && entries[j].data_file == files[i]);
    }
    assert forall|j: int|
        0 <= j < entries.len() && keep(#[trigger] entries[j]) implies dangling::has_key_of(
        files,
        entries[j].data_file,
    ) by {
        entries.lemma_filter_contains(keep, j);
        let i = choose|i: int| 0 <= i < kept.len() && kept[i] == entries[j];
        assert(files[i] == entries[j].data_file);
    }
}

/// The dangling files are the files of the dangling entries.
proof fn lemma_all_dangling_files(entries: Seq<ManifestEntry>)
    ensures
        forall|i: int|
            0 <= i < dangling::all_dangling_files(entries).len() ==> exists|j: int|
                0 <= j < entries.len() && dangling::is_dangling(entries, #[trigger] entries[j])
                    && entries[j].data_file == #[trigger] dangling::all_dangling_files(entries)[i],
        forall|j: int|
            0 <= j < entries.len() && dangling::is_dangling(entries, #[trigger] entries[j])
                ==> dangling::has_key_of(
                dangling::all_dangling_files(entries),
                entries[j].data_file,
            ),
{
    let position = dangling::files_where(entries, dangling::dangling_position(entries));
    let equality = dangling::files_where(entries, dangling::dangling_equality(entries));
    let all = dangling::all_dangling_files(entries);
    lemma_files_where(entries, dangling::dangling_position(entries));
    lemma_files_where(entries, dangling::dangling_equality(entries));
    assert forall|i: int| 0 <= i < all.len() implies exists|j: int|
        0 <= j < entries.len() && dangling::is_dangling(entries, #[trigger] entries[j])
            && entries[j].data_file == #[trigger] all[i] by {
        if i < position.len() {
            assert(all[i] == position[i]);
        } else {
            assert(all[i] == equality[i - position.len()]);
        }
    }
    assert forall|j: int|
        0 <= j < entries.len() && dangling::is_dangling(
            entries,
            #[trigger] entries[j],
        ) implies dangling::has_key_of(all, entries[j].data_file) by {
        let file = entries[j].data_file;
        if entries[j].is_live_position_delete() {
            assert(dangling::dangling_position(entries)(entries[j]));
            let i = choose|i: int|
                0 <= i < position.len() && (#[trigger] position[i]).key() == file.key();
            assert(all[i] == position[i]);
        } else {
            assert(dangling::dangling_equality(entries)(entries[j]));
            let i = choose|i: int|
                0 <= i < equality.len() && (#[trigger] equality[i]).key() == file.key();
            assert(all[position.len() + i] == equality[i]);
        }
    }
}

/// What is removed is the file of a dangling delete file of the snapshot: never
/// a data file, and never a file that is not there.
pub proof fn law_only_dangling_files_are_removed(entries: Seq<ManifestEntry>, i: int)
    requires
        0 <= i < dangling::dangling_files(entries).len(),
    ensures
        dangling::dangling_files(entries)[i].content != DataContentType::Data,
        exists|j: int|
            0 <= j < entries.len() && dangling::is_dangling(entries, #[trigger] entries[j])
                && entries[j].data_file == dangling::dangling_files(entries)[i],
{
    let all = dangling::all_dangling_files(entries);
    let file = dangling::dangling_files(entries)[i];
    lemma_first_of_each_key(all);
    lemma_all_dangling_files(entries);
    assert(all.contains(file));
    let k = choose|k: int| 0 <= k < all.len() && all[k] == file;
    assert(all[k] == file);
}

/// An identity is removed exactly when some dangling delete file of the snapshot
/// has it. So two dangling deletion vectors that share a Puffin file are both
/// removed, and one that is not dangling stays where a dangling one shares its
/// Puffin file.
pub proof fn law_removed_identities(entries: Seq<ManifestEntry>, file: DataFile)
    ensures
        dangling::has_key_of(dangling::dangling_files(entries), file) <==> is_dangling_identity(
            entries,
            file.key(),
        ),
{
    let all = dangling::all_dangling_files(entries);
    lemma_first_of_each_key(all);
    lemma_all_dangling_files(entries);
    if dangling::has_key_of(all, file) {
        let i = choose|i: int| 0 <= i < all.len() && (#[trigger] all[i]).key() == file.key();
        let j = choose|j: int|
            0 <= j < entries.len() && dangling::is_dangling(entries, #[trigger] entries[j])
                && entries[j].data_file == all[i];
        assert(entries[j].data_file.key() == file.key());
    }
    if is_dangling_identity(entries, file.key()) {
        let j = choose|j: int|
            0 <= j < entries.len() && dangling::is_dangling(entries, #[trigger] entries[j])
                && entries[j].data_file.key() == file.key();
        let i = choose|i: int|
            0 <= i < all.len() && (#[trigger] all[i]).key() == entries[j].data_file.key();
        assert(all[i].key() == file.key());
    }
}

/// The decision on an entry only depends on which entries there are.
proof fn lemma_is_dangling_same_entries(
    entries: Seq<ManifestEntry>,
    others: Seq<ManifestEntry>,
    delete: ManifestEntry,
)
    requires
        forall|e: ManifestEntry| #[trigger] others.contains(e) ==> entries.contains(e),
        dangling::is_dangling(entries, delete),
    ensures
        dangling::is_dangling(others, delete),
{
    assert forall|i: int|
        0 <= i < others.len() && others[i].is_live_data() implies !dangling::applies_to(
        delete,
        #[trigger] others[i],
    ) by {
        assert(others.contains(others[i]));
        let j = choose|j: int| 0 <= j < entries.len() && entries[j] == others[i];
        assert(!dangling::applies_to(delete, entries[j]));
    }
}

/// The identities of the dangling files only depend on which entries there are.
proof fn lemma_identity_same_entries(
    entries: Seq<ManifestEntry>,
    others: Seq<ManifestEntry>,
    key: FileKeyView,
)
    requires
        forall|e: ManifestEntry| entries.contains(e) <==> #[trigger] others.contains(e),
        is_dangling_identity(entries, key),
    ensures
        is_dangling_identity(others, key),
{
    let j = choose|j: int|
        0 <= j < entries.len() && dangling::is_dangling(entries, #[trigger] entries[j])
            && entries[j].data_file.key() == key;
    assert(entries.contains(entries[j]));
    assert(others.contains(entries[j]));
    let i = choose|i: int| 0 <= i < others.len() && others[i] == entries[j];
    lemma_is_dangling_same_entries(entries, others, entries[j]);
    assert(dangling::is_dangling(others, others[i]));
}

/// The identities of the files, in order.
spec fn keys_of(files: Seq<DataFile>) -> Seq<FileKeyView> {
    files.map_values(|f: DataFile| f.key())
}

/// Neither the order in which the entries are scanned nor how often one comes
/// has a say in what is removed: the same entries in another order give the same
/// decisions, remove the same identities, and remove as many files.
pub proof fn law_order_has_no_say(entries: Seq<ManifestEntry>, others: Seq<ManifestEntry>)
    requires
        entries.to_set() == others.to_set(),
    ensures
        forall|delete: ManifestEntry| #[trigger]
            dangling::is_dangling(entries, delete) == dangling::is_dangling(others, delete),
        forall|file: DataFile| #[trigger]
            dangling::has_key_of(dangling::dangling_files(entries), file) == dangling::has_key_of(
                dangling::dangling_files(others),
                file,
            ),
        dangling::dangling_files(entries).len() == dangling::dangling_files(others).len(),
{
    assert forall|e: ManifestEntry| entries.contains(e) <==> #[trigger] others.contains(e) by {
        assert(entries.to_set().contains(e) <==> entries.contains(e));
        assert(others.to_set().contains(e) <==> others.contains(e));
    }
    assert forall|delete: ManifestEntry| #[trigger]
        dangling::is_dangling(entries, delete) == dangling::is_dangling(others, delete) by {
        if dangling::is_dangling(entries, delete) {
            lemma_is_dangling_same_entries(entries, others, delete);
        }
        if dangling::is_dangling(others, delete) {
            lemma_is_dangling_same_entries(others, entries, delete);
        }
    }
    let files = dangling::dangling_files(entries);
    let other_files = dangling::dangling_files(others);
    assert forall|file: DataFile| #[trigger]
        dangling::has_key_of(files, file) == dangling::has_key_of(other_files, file) by {
        law_removed_identities(entries, file);
        law_removed_identities(others, file);
        if is_dangling_identity(entries, file.key()) {
            lemma_identity_same_entries(entries, others, file.key());
        }
        if is_dangling_identity(others, file.key()) {
            lemma_identity_same_entries(others, entries, file.key());
        }
    }
    lemma_first_of_each_key(dangling::all_dangling_files(entries));
    lemma_first_of_each_key(dangling::all_dangling_files(others));
    lemma_keys_subset(files, other_files);
    lemma_keys_subset(other_files, files);
    assert(keys_of(files).no_duplicates());
    assert(keys_of(other_files).no_duplicates());
    keys_of(files).unique_seq_to_set();
    keys_of(other_files).unique_seq_to_set();
    assert(keys_of(files).to_set() =~= keys_of(other_files).to_set());
}

/// Files with the identities of others have them among theirs.
proof fn lemma_keys_subset(files: Seq<DataFile>, others: Seq<DataFile>)
    requires
        forall|file: DataFile| #[trigger]
            dangling::has_key_of(files, file) ==> dangling::has_key_of(others, file),
    ensures
        forall|key: FileKeyView| #[trigger]
            keys_of(files).contains(key) ==> keys_of(others).contains(key),
{
    assert forall|key: FileKeyView| #[trigger]
        keys_of(files).contains(key) implies keys_of(others).contains(key) by {
        let i = choose|i: int| 0 <= i < keys_of(files).len() && keys_of(files)[i] == key;
        assert(files[i].key() == files[i].key());
        assert(dangling::has_key_of(files, files[i]));
        let j = choose|j: int| 0 <= j < others.len() && (#[trigger] others[j]).key() == key;
        assert(keys_of(others)[j] == key);
    }
}

/// The entries that are left when the dangling files are removed.
pub open spec fn left_over(entries: Seq<ManifestEntry>) -> Seq<ManifestEntry> {
    entries.filter(
        |e: ManifestEntry|
            e.data_file.content == DataContentType::Data || !dangling::has_key_of(
                dangling::dangling_files(entries),
                e.data_file,
            ),
    )
}

/// One run is enough: among the entries that it leaves, nothing is dangling, so
/// that a run behind it removes nothing.
pub proof fn law_second_run_removes_nothing(entries: Seq<ManifestEntry>)
    ensures
        dangling::dangling_files(left_over(entries)).len() == 0,
{
    let keep = |e: ManifestEntry|
        e.data_file.content == DataContentType::Data || !dangling::has_key_of(
            dangling::dangling_files(entries),
            e.data_file,
        );
    let left = left_over(entries);
    assert forall|j: int| 0 <= j < left.len() implies !dangling::is_dangling(
        left,
        #[trigger] left[j],
    ) by {
        let delete = left[j];
        if dangling::is_dangling(left, delete) {
            entries.lemma_filter_pred(keep, j);
            assert(left.contains(delete));
            entries.lemma_filter_contains_rev(keep, delete);
            let k = choose|k: int| 0 <= k < entries.len() && entries[k] == delete;
            assert forall|i: int|
                0 <= i < entries.len() && entries[i].is_live_data() implies !dangling::applies_to(
                delete,
                #[trigger] entries[i],
            ) by {
                entries.lemma_filter_contains(keep, i);
                let m = choose|m: int| 0 <= m < left.len() && left[m] == entries[i];
                assert(!dangling::applies_to(delete, left[m]));
            }
            assert(dangling::is_dangling(entries, entries[k]));
            law_removed_identities(entries, delete.data_file);
        }
    }
    let all = dangling::all_dangling_files(left);
    lemma_all_dangling_files(left);
    if all.len() > 0 {
        let j = choose|j: int|
            0 <= j < left.len() && dangling::is_dangling(left, #[trigger] left[j])
                && left[j].data_file == all[0];
        assert(dangling::is_dangling(left, left[j]));
    }
}

/// Files that are no longer alive have no say: the entries that are alive give
/// what all entries give.
pub proof fn law_dead_entries_have_no_say(entries: Seq<ManifestEntry>)
    ensures
        dangling::dangling_files(entries.filter(|e: ManifestEntry| e.alive()))
            == dangling::dangling_files(entries),
{
    let alive = |e: ManifestEntry| e.alive();
    let live = entries.filter(alive);
    assert forall|delete: ManifestEntry| #[trigger]
        dangling::is_dangling(live, delete) == dangling::is_dangling(entries, delete) by {
        if dangling::is_dangling(entries, delete) {
            assert forall|e: ManifestEntry| #[trigger] live.contains(e) implies entries.contains(
                e,
            ) by {
                entries.lemma_filter_contains_rev(alive, e);
            }
            lemma_is_dangling_same_entries(entries, live, delete);
        }
        if dangling::is_dangling(live, delete) {
            assert forall|i: int|
                0 <= i < entries.len() && entries[i].is_live_data() implies !dangling::applies_to(
                delete,
                #[trigger] entries[i],
            ) by {
                entries.lemma_filter_contains(alive, i);
                let m = choose|m: int| 0 <= m < live.len() && live[m] == entries[i];
                assert(!dangling::applies_to(delete, live[m]));
            }
        }
    }
    scan::lemma_filter_filter(
        entries,
        alive,
        dangling::dangling_position(live),
        dangling::dangling_position(entries),
    );
    scan::lemma_filter_filter(
        entries,
        alive,
        dangling::dangling_equality(live),
        dangling::dangling_equality(entries),
    );
}

/// Two partition values are equal exactly when they are of one variant and hold
/// the same.
pub proof fn law_equal_values(a: Literal, b: Literal)
    ensures
        a@ == b@ <==> match (a, b) {
            (Literal::Boolean(x), Literal::Boolean(y)) => x == y,
            (Literal::Int(x), Literal::Int(y)) => x == y,
            (Literal::Long(x), Literal::Long(y)) => x == y,
            (Literal::Float(x), Literal::Float(y)) => x == y,
            (Literal::Double(x), Literal::Double(y)) => x == y,
            (Literal::Str(x), Literal::Str(y)) => x@ == y@,
            (Literal::Binary(x), Literal::Binary(y)) => x@ == y@,
            (Literal::Int128(x), Literal::Int128(y)) => x == y,
            (Literal::UInt128(x), Literal::UInt128(y)) => x == y,
            _ => false,
        },
{
}

/// Two partition tuples are equal exactly when they have as many fields, and
/// each field is null in both or has equal values.
pub proof fn law_equal_tuples(a: Struct, b: Struct)
    ensures
        a@ == b@ <==> {
            &&& a.fields@.len() == b.fields@.len()
            &&& forall|i: int|
                0 <= i < a.fields@.len() ==> match (#[trigger] a.fields@[i], b.fields@[i]) {
                    (Some(x), Some(y)) => x@ == y@,
                    (None, None) => true,
                    _ => false,
                }
        },
{
    if a@ == b@ {
        assert(a@.len() == b@.len());
        assert forall|i: int| 0 <= i < a.fields@.len() implies match (
            #[trigger] a.fields@[i],
            b.fields@[i],
        ) {
            (Some(x), Some(y)) => x@ == y@,
            (None, None) => true,
            _ => false,
        } by {
            assert(a@[i] == b@[i]);
        }
    }
    if a.fields@.len() == b.fields@.len() && (forall|i: int|
        0 <= i < a.fields@.len() ==> match (#[trigger] a.fields@[i], b.fields@[i]) {
            (Some(x), Some(y)) => x@ == y@,
            (None, None) => true,
            _ => false,
        }) {
        assert forall|i: int| 0 <= i < a@.len() implies a@[i] == b@[i] by {
            let field = a.fields@[i];
        }
        assert(a@ =~= b@);
    }
}

/// Two files belong to one partition exactly when they follow one partition spec
/// and have equal partition tuples, all fields of them.
pub proof fn law_same_partition(a: DataFile, b: DataFile)
    ensures
        dangling::same_partition(a, b) <==> a.partition_spec_id == b.partition_spec_id
            && a.partition@ == b.partition@,
{
}

/// Two delete files have one identity exactly when they have one path, and are
/// at one place in it. No other field has a say.
pub proof fn law_same_identity(a: DataFile, b: DataFile)
    ensures
        a.key() == b.key() <==> a.file_path@ == b.file_path@ && a.content_offset
            == b.content_offset && a.content_size_in_bytes == b.content_size_in_bytes,
{
}

/// A data file counts exactly when its entry is not marked as deleted.
pub proof fn law_live_paths(entries: Seq<ManifestEntry>, path: Seq<char>)
    ensures
        scan::is_live_path(entries, path) <==> exists|i: int|
            0 <= i < entries.len() && (#[trigger] entries[i]).status != ManifestStatus::Deleted
                && entries[i].data_file.content == DataContentType::Data
                && entries[i].data_file.file_path@ == path,
{
}

/// Bounds of the `file_path` column that are one path name the file, whatever
/// else the delete file holds; and nothing else does.
pub proof fn law_equal_bounds_name_the_file(file: DataFile, path: Seq<char>)
    ensures
        file.inferred_target() == Some(path) <==> {
            &&& file.lower_bounds@.contains_key(FIELD_ID_POSITIONAL_DELETE_FILE_PATH)
            &&& file.upper_bounds@.contains_key(FIELD_ID_POSITIONAL_DELETE_FILE_PATH)
            &&& file.lower_bounds@[FIELD_ID_POSITIONAL_DELETE_FILE_PATH] matches Literal::Str(lower)
            &&& file.upper_bounds@[FIELD_ID_POSITIONAL_DELETE_FILE_PATH] matches Literal::Str(upper)
            &&& lower@ == path
            &&& upper@ == path
        },
{
}

/// The `file_path` column of position delete files has this field id.
pub proof fn law_field_id()
    ensures
        FIELD_ID_POSITIONAL_DELETE_FILE_PATH == 2147483546,
{
}

/// A live position delete that names a data file is dangling exactly when no
/// live data file has that path. Its partition, its sequence number and its
/// bounds have no say.
pub proof fn law_named_data_file(entries: Seq<ManifestEntry>, delete: ManifestEntry, path: String)
    requires
        delete.status != ManifestStatus::Deleted,
        delete.data_file.content == DataContentType::PositionDeletes,
        delete.data_file.referenced_data_file == Some(path),
    ensures
        dangling::is_dangling(entries, delete) <==> !exists|i: int|
            0 <= i < entries.len() && (#[trigger] entries[i]).status != ManifestStatus::Deleted
                && entries[i].data_file.content == DataContentType::Data
                && entries[i].data_file.file_path@ == path@,
{
    law_scoped_position_delete(entries, delete, path@);
    law_live_paths(entries, path@);
}

/// A live position delete that names no data file, and whose bounds are one
/// path, is dangling exactly when no live data file has that path.
pub proof fn law_data_file_named_by_bounds(
    entries: Seq<ManifestEntry>,
    delete: ManifestEntry,
    lower: String,
    upper: String,
)
    requires
        delete.status != ManifestStatus::Deleted,
        delete.data_file.content == DataContentType::PositionDeletes,
        delete.data_file.referenced_data_file is None,
        delete.data_file.lower_bounds@.contains_pair(
            FIELD_ID_POSITIONAL_DELETE_FILE_PATH,
            Literal::Str(lower),
        ),
        delete.data_file.upper_bounds@.contains_pair(
            FIELD_ID_POSITIONAL_DELETE_FILE_PATH,
            Literal::Str(upper),
        ),
        lower@ == upper@,
    ensures
        dangling::is_dangling(entries, delete) <==> !exists|i: int|
            0 <= i < entries.len() && (#[trigger] entries[i]).status != ManifestStatus::Deleted
                && entries[i].data_file.content == DataContentType::Data
                && entries[i].data_file.file_path@ == lower@,
{
    law_equal_bounds_name_the_file(delete.data_file, lower@);
    law_scoped_position_delete(entries, delete, lower@);
    law_live_paths(entries, lower@);
}

/// A live position delete that neither names a data file nor has bounds that are
/// one path is dangling exactly when it has a sequence number, and that is less
/// than the one of each live data file under its partition spec and with its
/// partition tuple. Data files without a sequence number have no say.
pub proof fn law_unscoped_position_delete(entries: Seq<ManifestEntry>, delete: ManifestEntry)
    requires
        delete.status != ManifestStatus::Deleted,
        delete.data_file.content == DataContentType::PositionDeletes,
        delete.data_file.referenced_data_file is None,
        !({
            let lower = delete.data_file.lower_bounds@;
            let upper = delete.data_file.upper_bounds@;
            &&& lower.contains_key(FIELD_ID_POSITIONAL_DELETE_FILE_PATH)
            &&& upper.contains_key(FIELD_ID_POSITIONAL_DELETE_FILE_PATH)
            &&& lower[FIELD_ID_POSITIONAL_DELETE_FILE_PATH] matches Literal::Str(l)
            &&& upper[FIELD_ID_POSITIONAL_DELETE_FILE_PATH] matches Literal::Str(u)
            &&& l@ == u@
        }),
    ensures
        dangling::is_dangling(entries, delete) <==> {
            &&& delete.sequence_number matches Some(s)
            &&& forall|i: int|
                0 <= i < entries.len() && (#[trigger] entries[i]).status != ManifestStatus::Deleted
                && entries[i].data_file.content == DataContentType::Data
                && entries[i].data_file.partition_spec_id == delete.data_file.partition_spec_id
                && entries[i].data_file.partition@ == delete.data_file.partition@ ==> (
                entries[i].sequence_number matches Some(d) ==> s < d)
        },
{
    lemma_unscoped(entries, delete);
}

/// A live equality delete with partition values is dangling exactly when it has
/// a sequence number, and that is at most the one of each live data file under
/// its partition spec and with its partition tuple.
pub proof fn law_partitioned_equality_delete(entries: Seq<ManifestEntry>, delete: ManifestEntry)
    requires
        delete.status != ManifestStatus::Deleted,
        delete.data_file.content == DataContentType::EqualityDeletes,
        delete.data_file.partition.fields@.len() > 0,
    ensures
        dangling::is_dangling(entries, delete) <==> {
            &&& delete.sequence_number matches Some(s)
            &&& forall|i: int|
                0 <= i < entries.len() && (#[trigger] entries[i]).status != ManifestStatus::Deleted
                && entries[i].data_file.content == DataContentType::Data
                && entries[i].data_file.partition_spec_id == delete.data_file.partition_spec_id
                && entries[i].data_file.partition@ == delete.data_file.partition@ ==> (
                entries[i].sequence_number matches Some(d) ==> s <= d)
        },
{
    lemma_unscoped(entries, delete);
}

/// A live equality delete without partition values is dangling exactly when it
/// has a sequence number, and that is at most the one of each live data file of
/// the table, whatever its partition.
pub proof fn law_global_equality_delete(entries: Seq<ManifestEntry>, delete: ManifestEntry)
    requires
        delete.status != ManifestStatus::Deleted,
        delete.data_file.content == DataContentType::EqualityDeletes,
        delete.data_file.partition.fields@.len() == 0,
    ensures
        dangling::is_dangling(entries, delete) <==> {
            &&& delete.sequence_number matches Some(s)
            &&& forall|i: int|
                0 <= i < entries.len() && (#[trigger] entries[i]).status != ManifestStatus::Deleted
                && entries[i].data_file.content == DataContentType::Data ==> (
                entries[i].sequence_number matches Some(d) ==> s <= d)
        },
{
    lemma_unscoped(entries, delete);
}

/// Data files, and files that are marked as deleted, are never dangling.
pub proof fn law_only_live_deletes_dangle(entries: Seq<ManifestEntry>, entry: ManifestEntry)
    requires
        entry.status == ManifestStatus::Deleted || entry.data_file.content
            == DataContentType::Data,
    ensures
        !dangling::is_dangling(entries, entry),
{
}

/// A delete that is not scoped by a path dangles where it has a sequence number
/// and reaches no live data file.
proof fn lemma_unscoped(entries: Seq<ManifestEntry>, delete: ManifestEntry)
    ensures
        ({
            let unscoped = delete.data_file.content == DataContentType::EqualityDeletes || (
            delete.data_file.content == DataContentType::PositionDeletes
                && delete.data_file.single_target() is None);
            delete.alive() && unscoped ==> (dangling::is_dangling(entries, delete) <==> {
                &&& delete.sequence_number is Some
                &&& forall|i: int|
                    0 <= i < entries.len() && (#[trigger] entries[i]).is_live_data()
                        ==> !dangling::applies_to(delete, entries[i])
            })
        }),
{
}

/// The places at which a predicate holds, in order.
proof fn lemma_filter_places(
    entries: Seq<ManifestEntry>,
    keep: spec_fn(ManifestEntry) -> bool,
) -> (places: Seq<int>)
    ensures
        places.len() == entries.filter(keep).len(),
        forall|i: int|
            0 <= i < places.len() ==> {
                &&& 0 <= #[trigger] places[i] < entries.len()
                &&& keep(entries[places[i]])
                &&& entries.filter(keep)[i] == entries[places[i]]
            },
        forall|i: int, k: int| 0 <= i < k < places.len() ==> places[i] < places[k],
        forall|j: int|
            0 <= j < entries.len() && keep(#[trigger] entries[j]) ==> places.contains(j),
    decreases entries.len(),
{
    reveal(Seq::filter);
    if entries.len() == 0 {
        Seq::empty()
    } else {
        let rest = entries.drop_last();
        let before = lemma_filter_places(rest, keep);
        let last = entries.len() - 1;
        let places = if keep(entries.last()) {
            before.push(last)
        } else {
            before
        };
        assert forall|i: int| 0 <= i < places.len() implies {
            &&& 0 <= #[trigger] places[i] < entries.len()
            &&& keep(entries[places[i]])
            &&& entries.filter(keep)[i] == entries[places[i]]
        } by {
            if i < before.len() {
                assert(places[i] == before[i]);
                assert(entries[before[i]] == rest[before[i]]);
            }
        }
        assert forall|i: int, k: int| 0 <= i < k < places.len() implies places[i]
            < places[k] by {
            assert(places[i] == before[i]);
            if k < before.len() {
                assert(places[k] == before[k]);
            }
        }
        assert forall|j: int|
            0 <= j < entries.len() && keep(#[trigger] entries[j]) implies places.contains(j) by {
            if j < last {
                assert(rest[j] == entries[j]);
                let i = choose|i: int| 0 <= i < before.len() && before[i] == j;
                assert(places[i] == j);
            } else {
                assert(places[places.len() - 1] == j);
            }
        }
        places
    }
}

/// The file at `place` of the list is the first with its identity.
spec fn is_first(files: Seq<DataFile>, place: int) -> bool {
    !dangling::has_key_of(files.take(place), files[place])
}

/// Some place, and none behind `j`, holds a file with the identity of the one at
/// `j`.
spec fn is_covered(files: Seq<DataFile>, places: Seq<int>, j: int) -> bool {
    exists|i: int|
        0 <= i < places.len() && #[trigger] places[i] <= j && files[places[i]].key()
            == files[j].key()
}

/// Keeping one file of each identity keeps the first one.
proof fn lemma_first_places(files: Seq<DataFile>) -> (places: Seq<int>)
    ensures
        places.len() == dangling::first_of_each_key(files).len(),
        forall|i: int|
            0 <= i < places.len() ==> {
                &&& 0 <= #[trigger] places[i] < files.len()
                &&& dangling::first_of_each_key(files)[i] == files[places[i]]
                &&& is_first(files, places[i])
            },
        forall|i: int, k: int| 0 <= i < k < places.len() ==> places[i] < places[k],
        forall|j: int| 0 <= j < files.len() ==> #[trigger] is_covered(files, places, j),
    decreases files.len(),
{
    let kept = dangling::first_of_each_key(files);
    if files.len() == 0 {
        Seq::empty()
    } else {
        let rest = files.drop_last();
        let last = files.len() - 1;
        let before = lemma_first_places(rest);
        let seen = dangling::has_key_of(rest, files.last());
        let places = if seen {
            before
        } else {
            before.push(last)
        };
        assert forall|i: int| 0 <= i < places.len() implies {
            &&& 0 <= #[trigger] places[i] < files.len()
            &&& kept[i] == files[places[i]]
            &&& is_first(files, places[i])
        } by {
            if i < before.len() {
                assert(places[i] == before[i]);
                assert(files[before[i]] == rest[before[i]]);
                assert(is_first(rest, before[i]));
                assert(files.take(before[i]) =~= rest.take(before[i]));
            } else {
                assert(files.take(last) =~= rest);
            }
        }
        assert forall|i: int, k: int| 0 <= i < k < places.len() implies places[i]
            < places[k] by {
            assert(places[i] == before[i]);
            if k < before.len() {
                assert(places[k] == before[k]);
            }
        }
        assert forall|j: int| 0 <= j < files.len() implies #[trigger] is_covered(
            files,
            places,
            j,
        ) by {
            if j < last || seen {
                let m = if j < last {
                    j
                } else {
                    choose|m: int|
                        0 <= m < rest.len() && (#[trigger] rest[m]).key() == files.last().key()
                };
                assert(is_covered(rest, before, m));
                let i = choose|i: int|
                    0 <= i < before.len() && #[trigger] before[i] <= m && rest[before[i]].key()
                        == rest[m].key();
                assert(places[i] == before[i]);
            } else {
                assert(places[places.len() - 1] == j);
            }
        }
        places
    }
}

/// Keeping one file of each identity keeps the first: the kept files are files
/// of the list, in its order; none has an earlier file with its path, offset and
/// size; and each file of the list has a kept one with its path, offset and
/// size. Given back are the places of the kept files in the list.
pub proof fn law_first_file_of_each_identity(files: Seq<DataFile>) -> (places: Seq<int>)
    ensures
        places.len() == dangling::first_of_each_key(files).len(),
        forall|i: int|
            0 <= i < places.len() ==> 0 <= #[trigger] places[i] < files.len()
                && dangling::first_of_each_key(files)[i] == files[places[i]],
        forall|i: int, k: int| 0 <= i < k < places.len() ==> places[i] < places[k],
        forall|i: int, j: int|
            0 <= i < places.len() && 0 <= j < places[i] ==> {
                let a = #[trigger] dangling::first_of_each_key(files)[i];
                let b = #[trigger] files[j];
                ||| a.file_path@ != b.file_path@
                ||| a.content_offset != b.content_offset
                ||| a.content_size_in_bytes != b.content_size_in_bytes
            },
        forall|j: int|
            #![trigger files[j]]
            0 <= j < files.len() ==> exists|i: int|
                {
                    let a = #[trigger] dangling::first_of_each_key(files)[i];
                    &&& 0 <= i < places.len()
                    &&& places[i] <= j
                    &&& a.file_path@ == files[j].file_path@
                    &&& a.content_offset == files[j].content_offset
                    &&& a.content_size_in_bytes == files[j].content_size_in_bytes
                },
{
    let kept = dangling::first_of_each_key(files);
    let places = lemma_first_places(files);
    assert forall|i: int, j: int| 0 <= i < places.len() && 0 <= j < places[i] implies {
        let a = #[trigger] kept[i];
        let b = #[trigger] files[j];
        ||| a.file_path@ != b.file_path@
        ||| a.content_offset != b.content_offset
        ||| a.content_size_in_bytes != b.content_size_in_bytes
    } by {
        assert(is_first(files, places[i]));
        assert(files.take(places[i])[j] == files[j]);
        law_same_identity(kept[i], files[j]);
    }
    assert forall|j: int|
        #![trigger files[j]]
        0 <= j < files.len() implies exists|i: int|
        {
            let a = #[trigger] kept[i];
            &&& 0 <= i < places.len()
            &&& places[i] <= j
            &&& a.file_path@ == files[j].file_path@
            &&& a.content_offset == files[j].content_offset
            &&& a.content_size_in_bytes == files[j].content_size_in_bytes
        } by {
        assert(is_covered(files, places, j));
        let i = choose|i: int|
            0 <= i < places.len() && #[trigger] places[i] <= j && files[places[i]].key()
                == files[j].key();
        law_same_identity(kept[i], files[j]);
    }
    places
}

/// The dangling files before each identity is brought down to one, with the
/// places of their entries.
proof fn lemma_all_dangling_places(entries: Seq<ManifestEntry>) -> (places: Seq<int>)
    ensures
        places.len() == dangling::all_dangling_files(entries).len(),
        forall|i: int|
            0 <= i < places.len() ==> {
                &&& 0 <= #[trigger] places[i] < entries.len()
                &&& dangling::is_dangling(entries, entries[places[i]])
                &&& dangling::all_dangling_files(entries)[i] == entries[places[i]].data_file
                &&& entries[places[i]].data_file.content != DataContentType::Data
            },
        forall|i: int, k: int|
            0 <= i < k < places.len() ==> is_ahead(entries, places[i], places[k]),
        forall|j: int|
            0 <= j < entries.len() && dangling::is_dangling(entries, #[trigger] entries[j])
                ==> places.contains(j),
{
    let position = dangling::dangling_position(entries);
    let equality = dangling::dangling_equality(entries);
    let first = lemma_filter_places(entries, position);
    let second = lemma_filter_places(entries, equality);
    let places = first + second;
    assert forall|i: int| 0 <= i < places.len() implies {
        &&& 0 <= #[trigger] places[i] < entries.len()
        &&& dangling::is_dangling(entries, entries[places[i]])
        &&& dangling::all_dangling_files(entries)[i] == entries[places[i]].data_file
        &&& entries[places[i]].data_file.content != DataContentType::Data
    } by {
        if i < first.len() {
            assert(places[i] == first[i]);
        } else {
            assert(places[i] == second[i - first.len()]);
        }
    }
    assert forall|i: int, k: int| 0 <= i < k < places.len() implies is_ahead(
        entries,
        places[i],
        places[k],
    ) by {
        if k < first.len() {
            assert(places[i] == first[i] && places[k] == first[k]);
        } else if i < first.len() {
            assert(places[i] == first[i] && places[k] == second[k - first.len()]);
        } else {
            assert(places[i] == second[i - first.len()]);
            assert(places[k] == second[k - first.len()]);
        }
    }
    assert forall|j: int|
        0 <= j < entries.len() && dangling::is_dangling(
            entries,
            #[trigger] entries[j],
        ) implies places.contains(j) by {
        if entries[j].is_live_position_delete() {
            assert(position(entries[j]));
            let i = choose|i: int| 0 <= i < first.len() && first[i] == j;
            assert(places[i] == j);
        } else {
            assert(equality(entries[j]));
            let i = choose|i: int| 0 <= i < second.len() && second[i] == j;
            assert(places[first.len() + i] == j);
        }
    }
    places
}

/// The dangling entry at `a` is taken before the one at `b`: position deletes
/// before equality deletes, and otherwise as the entries are listed.
spec fn is_ahead(entries: Seq<ManifestEntry>, a: int, b: int) -> bool {
    if entries[a].data_file.content == entries[b].data_file.content {
        a < b
    } else {
        entries[a].data_file.content == DataContentType::PositionDeletes
    }
}

/// The places of the files that are left when each identity is brought down to
/// one, for files that were taken from the entries that `dangles` holds of.
proof fn lemma_removed_files(
    entries: Seq<ManifestEntry>,
    all: Seq<DataFile>,
    inner: Seq<int>,
    dangles: spec_fn(ManifestEntry) -> bool,
) -> (places: Seq<int>)
    requires
        inner.len() == all.len(),
        forall|i: int|
            0 <= i < inner.len() ==> {
                &&& 0 <= #[trigger] inner[i] < entries.len()
                &&& dangles(entries[inner[i]])
                &&& all[i] == entries[inner[i]].data_file
                &&& all[i].content != DataContentType::Data
            },
        forall|i: int, k: int|
            0 <= i < k < inner.len() ==> is_ahead(entries, inner[i], inner[k]),
        forall|j: int|
            0 <= j < entries.len() && dangles(#[trigger] entries[j]) ==> inner.contains(j),
    ensures
        places.len() == dangling::first_of_each_key(all).len(),
        forall|i: int|
            0 <= i < places.len() ==> {
                &&& 0 <= #[trigger] places[i] < entries.len()
                &&& dangles(entries[places[i]])
                &&& dangling::first_of_each_key(all)[i] == entries[places[i]].data_file
            },
        forall|i: int, k: int|
            0 <= i < k < places.len() ==> #[trigger] is_ahead(entries, places[i], places[k]),
        forall|i: int, j: int|
            0 <= i < places.len() && 0 <= j < entries.len() && dangles(#[trigger] entries[j])
                && entries[j].data_file.key() == dangling::first_of_each_key(all)[i].key()
                ==> #[trigger] places[i] == j || is_ahead(entries, places[i], j),
{
    let files = dangling::first_of_each_key(all);
    let outer = lemma_first_places(all);
    let places = Seq::new(outer.len(), |i: int| inner[outer[i]]);
    assert forall|i: int| 0 <= i < places.len() implies {
        &&& 0 <= #[trigger] places[i] < entries.len()
        &&& dangles(entries[places[i]])
        &&& files[i] == entries[places[i]].data_file
    } by {
        assert(0 <= outer[i] < all.len());
        assert(0 <= inner[outer[i]] < entries.len());
    }
    assert forall|i: int, k: int| 0 <= i < k < places.len() implies #[trigger] is_ahead(
        entries,
        places[i],
        places[k],
    ) by {
        assert(outer[i] < outer[k]);
        assert(is_ahead(entries, inner[outer[i]], inner[outer[k]]));
    }
    assert forall|i: int, j: int|
        0 <= i < places.len() && 0 <= j < entries.len() && dangles(#[trigger] entries[j])
            && entries[j].data_file.key() == files[i].key() implies #[trigger] places[i] == j
        || is_ahead(entries, places[i], j) by {
        let m = choose|m: int| 0 <= m < inner.len() && inner[m] == j;
        assert(all[m] == entries[j].data_file);
        assert(is_first(all, outer[i]));
        if m < outer[i] {
            assert(all.take(outer[i])[m] == all[m]);
        } else if outer[i] < m {
            assert(is_ahead(entries, inner[outer[i]], inner[m]));
        }
    }
    places
}

/// What is removed, in full. Each removed file is that of a dangling entry. The
/// position deletes come before the equality deletes, each in the order of the
/// entries. Of several dangling entries with one path, offset and size, it is
/// the file of the first that is removed. Given back are the places of the
/// removed files among the entries.
pub proof fn law_removed_files(entries: Seq<ManifestEntry>) -> (places: Seq<int>)
    ensures
        places.len() == dangling::dangling_files(entries).len(),
        forall|i: int|
            0 <= i < places.len() ==> {
                &&& 0 <= #[trigger] places[i] < entries.len()
                &&& dangling::is_dangling(entries, entries[places[i]])
                &&& dangling::dangling_files(entries)[i] == entries[places[i]].data_file
            },
        forall|i: int, k: int|
            0 <= i < k < places.len() ==> {
                let a = #[trigger] dangling::dangling_files(entries)[i];
                let b = #[trigger] dangling::dangling_files(entries)[k];
                &&& a.content == b.content ==> places[i] < places[k]
                &&& a.content != b.content ==> a.content == DataContentType::PositionDeletes
            },
        forall|i: int, j: int|
            0 <= i < places.len() && 0 <= j < entries.len() && dangling::is_dangling(
                entries,
                #[trigger] entries[j],
            ) ==> {
                let a = #[trigger] dangling::dangling_files(entries)[i];
                let b = entries[j].data_file;
                a.file_path@ == b.file_path@ && a.content_offset == b.content_offset
                    && a.content_size_in_bytes == b.content_size_in_bytes ==> {
                    &&& a.content == b.content ==> places[i] <= j
                    &&& a.content != b.content ==> a.content == DataContentType::PositionDeletes
                }
            },
{
    let files = dangling::dangling_files(entries);
    let inner = lemma_all_dangling_places(entries);
    let dangles = |e: ManifestEntry| dangling::is_dangling(entries, e);
    let places = lemma_removed_files(
        entries,
        dangling::all_dangling_files(entries),
        inner,
        dangles,
    );
    assert forall|i: int, k: int| 0 <= i < k < places.len() implies {
        let a = #[trigger] files[i];
        let b = #[trigger] files[k];
        &&& a.content == b.content ==> places[i] < places[k]
        &&& a.content != b.content ==> a.content == DataContentType::PositionDeletes
    } by {
        assert(is_ahead(entries, places[i], places[k]));
    }
    assert forall|i: int, j: int|
        0 <= i < places.len() && 0 <= j < entries.len() && dangling::is_dangling(
            entries,
            #[trigger] entries[j],
        ) implies {
        let a = #[trigger] files[i];
        let b = entries[j].data_file;
        a.file_path@ == b.file_path@ && a.content_offset == b.content_offset
            && a.content_size_in_bytes == b.content_size_in_bytes ==> {
            &&& a.content == b.content ==> places[i] <= j
            &&& a.content != b.content ==> a.content == DataContentType::PositionDeletes
        }
    } by {
        law_same_identity(files[i], entries[j].data_file);
        assert(dangles(entries[j]));
        assert(places[i] == places[i]);
    }
    places
}

/// Files are removed exactly when some entry is dangling.
pub proof fn lemma_some_removed(entries: Seq<ManifestEntry>)
    ensures
        dangling::dangling_files(entries).len() > 0 <==> exists|j: int|
            0 <= j < entries.len() && dangling::is_dangling(entries, #[trigger] entries[j]),
{
    let files = dangling::dangling_files(entries);
    if files.len() > 0 {
        law_only_dangling_files_are_removed(entries, 0);
    }
    if exists|j: int|
        0 <= j < entries.len() && dangling::is_dangling(entries, #[trigger] entries[j]) {
        let j = choose|j: int|
            0 <= j < entries.len() && dangling::is_dangling(entries, #[trigger] entries[j]);
        law_each_dangling_entry_is_removed_once(entries, j);
    }
}

/// For each dangling entry, one file with its path, offset and size is removed,
/// and only one.
pub proof fn law_each_dangling_entry_is_removed_once(entries: Seq<ManifestEntry>, j: int)
    requires
        0 <= j < entries.len(),
        dangling::is_dangling(entries, entries[j]),
    ensures
        exists|i: int|
            {
                let a = #[trigger] dangling::dangling_files(entries)[i];
                let b = entries[j].data_file;
                &&& 0 <= i < dangling::dangling_files(entries).len()
                &&& a.file_path@ == b.file_path@
                &&& a.content_offset == b.content_offset
                &&& a.content_size_in_bytes == b.content_size_in_bytes
            },
        forall|i: int, k: int|
            0 <= i < k < dangling::dangling_files(entries).len() ==> {
                let a = #[trigger] dangling::dangling_files(entries)[i];
                let b = #[trigger] dangling::dangling_files(entries)[k];
                a.file_path@ != b.file_path@ || a.content_offset != b.content_offset
                    || a.content_size_in_bytes != b.content_size_in_bytes
            },
{
    let files = dangling::dangling_files(entries);
    let file = entries[j].data_file;
    law_removed_identities(entries, file);
    assert(is_dangling_identity(entries, file.key()));
    let i = choose|i: int| 0 <= i < files.len() && (#[trigger] files[i]).key() == file.key();
    law_same_identity(files[i], file);
    assert forall|i: int, k: int| 0 <= i < k < files.len() implies {
        let a = #[trigger] files[i];
        let b = #[trigger] files[k];
        a.file_path@ != b.file_path@ || a.content_offset != b.content_offset
            || a.content_size_in_bytes != b.content_size_in_bytes
    } by {
        law_no_identity_twice(entries, i, k);
        law_same_identity(files[i], files[k]);
    }
}

} // verus!
