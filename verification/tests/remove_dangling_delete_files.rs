use std::collections::HashMap;

use dangling_deletes::{
    delete_file_key, ActionCommit, Command, DataContentType, DataFile, DataFileFormat, Error, Event,
    Literal, Manifest, ManifestEntry, ManifestStatus, RemoveDanglingDeleteFilesAction,
    RequireScannedSnapshotAction, Struct, TableIdent, TableRefs, TableUpdate, Transaction,
    FIELD_ID_POSITIONAL_DELETE_FILE_PATH, MAIN_BRANCH,
};

/// A table in memory. Each commit makes a snapshot with the next sequence
/// number, and one manifest for the files that it adds.
struct TestTable {
    name: String,
    manifests: Vec<Manifest>,
    last_sequence_number: i64,
    branches: Vec<(String, i64)>,
    /// A file that another writer commits right before the next rewrite.
    intruder: Option<DataFile>,
}

fn data_file(content: DataContentType, file_path: &str) -> DataFile {
    DataFile {
        content,
        file_path: file_path.to_string(),
        file_format: DataFileFormat::Parquet,
        record_count: 1,
        file_size_in_bytes: 100,
        partition_spec_id: 0,
        partition: Struct::empty(),
        equality_ids: None,
        referenced_data_file: None,
        content_offset: None,
        content_size_in_bytes: None,
        lower_bounds: HashMap::new(),
        upper_bounds: HashMap::new(),
    }
}

fn equality_delete(file_path: &str) -> DataFile {
    DataFile {
        equality_ids: Some(vec![1]),
        ..data_file(DataContentType::EqualityDeletes, file_path)
    }
}

fn position_delete_of(file_path: &str, referenced: &str) -> DataFile {
    DataFile {
        referenced_data_file: Some(referenced.to_string()),
        ..data_file(DataContentType::PositionDeletes, file_path)
    }
}

fn deletion_vector(file_path: &str, referenced: &str, offset: i64, size: i64) -> DataFile {
    DataFile {
        file_format: DataFileFormat::Puffin,
        file_size_in_bytes: 200,
        content_offset: Some(offset),
        content_size_in_bytes: Some(size),
        ..position_delete_of(file_path, referenced)
    }
}

impl TestTable {
    fn new(name: &str) -> TestTable {
        TestTable {
            name: name.to_string(),
            manifests: Vec::new(),
            last_sequence_number: 0,
            branches: Vec::new(),
            intruder: None,
        }
    }

    fn ident(&self) -> TableIdent {
        TableIdent { namespace: vec!["test_ns".to_string()], name: self.name.clone() }
    }

    fn refs(&self) -> TableRefs {
        let mut refs = TableRefs::new();
        for (branch, snapshot_id) in &self.branches {
            refs.insert(branch.clone(), *snapshot_id);
        }
        refs
    }

    fn snapshot_of(&self, branch: &str) -> Option<i64> {
        self.refs().get(&branch.to_string())
    }

    fn new_snapshot_id(&self) -> i64 {
        1000 + self.last_sequence_number + 1
    }

    fn set_branch(&mut self, branch: &str, snapshot_id: i64) {
        self.branches.retain(|(name, _)| name != branch);
        self.branches.push((branch.to_string(), snapshot_id));
    }

    fn commit_files(&mut self, files: Vec<DataFile>) {
        let snapshot_id = self.new_snapshot_id();
        self.last_sequence_number += 1;
        let sequence_number = Some(self.last_sequence_number);
        self.manifests.push(Manifest {
            entries: files
                .into_iter()
                .map(|data_file| ManifestEntry {
                    status: ManifestStatus::Added,
                    sequence_number,
                    data_file,
                })
                .collect(),
        });
        self.set_branch(MAIN_BRANCH, snapshot_id);
    }

    fn commit_data_file(&mut self, file_path: &str) {
        self.commit_files(vec![data_file(DataContentType::Data, file_path)]);
    }

    fn commit_partitioned_file(
        &mut self,
        file_path: &str,
        content: DataContentType,
        partition_val: i32,
    ) {
        let equality_ids = if content == DataContentType::EqualityDeletes {
            Some(vec![1])
        } else {
            None
        };
        self.commit_files(vec![DataFile {
            partition: Struct::new(vec![Some(Literal::Int(partition_val))]),
            equality_ids,
            ..data_file(content, file_path)
        }]);
    }

    /// Commits a transaction whose last action rewrites the branch.
    fn commit_rewrite(
        &mut self,
        guard: &RequireScannedSnapshotAction,
        delete_files: &[DataFile],
        branch: &str,
    ) -> Result<(), Error> {
        if let Some(file) = self.intruder.take() {
            self.commit_files(vec![file]);
        }
        let snapshot_id = self.new_snapshot_id();
        let mut transaction = Transaction::new();
        transaction.apply(guard.commit()?);
        transaction.apply(ActionCommit::new(
            vec![TableUpdate::SetSnapshotRef { ref_name: branch.to_string(), snapshot_id }],
            vec![],
        ));
        let refs = transaction.commit(self.refs())?;
        assert_eq!(refs.get(&branch.to_string()), Some(snapshot_id));
        self.last_sequence_number += 1;
        self.set_branch(branch, snapshot_id);
        for manifest in &mut self.manifests {
            for entry in &mut manifest.entries {
                if delete_files
                    .iter()
                    .any(|file| delete_file_key(file) == delete_file_key(&entry.data_file))
                {
                    entry.status = ManifestStatus::Deleted;
                }
            }
        }
        Ok(())
    }

    fn execute(
        &mut self,
        action: RemoveDanglingDeleteFilesAction<&'static str>,
    ) -> Result<usize, Error> {
        let (catalog, mut execution, mut command) = action.execute();
        assert_eq!(catalog, "memory");
        let mut guard: Option<RequireScannedSnapshotAction> = None;
        let mut rewrite: Option<(Vec<DataFile>, String)> = None;
        let mut to_read: Vec<Manifest> = Vec::new();
        loop {
            let event = match command {
                Command::LoadTable { table_ident, branch } => {
                    assert_eq!(table_ident, self.ident());
                    Event::TableLoaded { snapshot_id: self.snapshot_of(&branch) }
                }
                Command::LoadManifests { snapshot_id } => {
                    assert!(self.branches.iter().any(|(_, id)| *id == snapshot_id));
                    to_read = self.manifests.clone();
                    to_read.reverse();
                    match to_read.pop() {
                        Some(manifest) => Event::ManifestLoaded(manifest),
                        None => Event::ManifestsExhausted,
                    }
                }
                Command::NextManifest => match to_read.pop() {
                    Some(manifest) => Event::ManifestLoaded(manifest),
                    None => Event::ManifestsExhausted,
                },
                Command::ApplyGuard(action) => {
                    guard = Some(action);
                    Event::Applied
                }
                Command::ApplyRewrite(action) => {
                    rewrite = Some((action.delete_files, action.target_branch));
                    Event::Applied
                }
                Command::Commit => {
                    let (files, branch) = rewrite.take().unwrap();
                    match self.commit_rewrite(&guard.take().unwrap(), &files, &branch) {
                        Ok(()) => Event::Committed,
                        Err(e) => Event::Failed(e),
                    }
                }
                Command::Finish(outcome) => return outcome,
            };
            assert!(execution.expects(&event));
            let (next, asked) = execution.step(event);
            execution = next;
            command = asked;
        }
    }

    fn remove_dangling(&mut self) -> usize {
        let action = RemoveDanglingDeleteFilesAction::new("memory", self.ident());
        self.execute(action).unwrap()
    }

    fn is_live(&self, wanted: impl Fn(&DataFile) -> bool) -> bool {
        self.manifests
            .iter()
            .flat_map(|manifest| manifest.entries.iter())
            .any(|entry| entry.is_alive() && wanted(&entry.data_file))
    }

    fn delete_file_is_live(&self, file_path: &str) -> bool {
        self.is_live(|file| file.file_path == file_path)
    }

    fn dv_entry_is_live(&self, file_path: &str, content_offset: i64) -> bool {
        self.is_live(|file| {
            file.file_path == file_path && file.content_offset == Some(content_offset)
        })
    }
}

#[test]
fn test_remove_dangling_delete_files() {
    let mut table = TestTable::new("test_dangling");
    table.commit_data_file("memory://test/data-1.parquet");
    table.commit_files(vec![position_delete_of(
        "memory://test/pos-del-1.parquet",
        "memory://test/nonexistent.parquet",
    )]);
    let removed = table.remove_dangling();
    assert_eq!(removed, 1);
}

#[test]
fn test_remove_dangling_delete_files_none_when_referenced() {
    let mut table = TestTable::new("test_referenced");
    let data_file_path = "memory://test/data-1.parquet";
    table.commit_data_file(data_file_path);
    table.commit_files(vec![position_delete_of(
        "memory://test/pos-del-1.parquet",
        data_file_path,
    )]);
    let removed = table.remove_dangling();
    assert_eq!(removed, 0);
}

#[test]
fn test_remove_dangling_equality_delete() {
    let mut table = TestTable::new("test_eq_dangling");
    // The equality delete gets the lower sequence number.
    table.commit_files(vec![equality_delete("memory://test/eq-del-1.parquet")]);
    table.commit_data_file("memory://test/data-1.parquet");
    let removed = table.remove_dangling();
    assert_eq!(removed, 1);
}

#[test]
fn test_keep_equality_delete_when_data_has_lower_seq() {
    let mut table = TestTable::new("test_eq_kept");
    // The data file gets the lower sequence number.
    table.commit_data_file("memory://test/data-1.parquet");
    table.commit_files(vec![equality_delete("memory://test/eq-del-1.parquet")]);
    let removed = table.remove_dangling();
    assert_eq!(removed, 0);
}

#[test]
fn test_position_delete_without_ref_removed_by_seq() {
    let mut table = TestTable::new("test_pos_seq");
    table.commit_files(vec![data_file(
        DataContentType::PositionDeletes,
        "memory://test/pos-del-1.parquet",
    )]);
    table.commit_data_file("memory://test/data-1.parquet");
    let removed = table.remove_dangling();
    assert_eq!(removed, 1);
}

#[test]
fn test_position_delete_without_ref_kept_by_seq() {
    let mut table = TestTable::new("test_pos_seq_kept");
    table.commit_data_file("memory://test/data-1.parquet");
    table.commit_files(vec![data_file(
        DataContentType::PositionDeletes,
        "memory://test/pos-del-1.parquet",
    )]);
    let removed = table.remove_dangling();
    assert_eq!(removed, 0);
}

#[test]
fn test_remove_global_equality_delete() {
    let mut table = TestTable::new("test_global_eq");
    table.commit_files(vec![equality_delete("memory://test/eq-del-1.parquet")]);
    table.commit_data_file("memory://test/data-1.parquet");
    let removed = table.remove_dangling();
    assert_eq!(removed, 1);
}

#[test]
fn test_partial_delete_manifest_removes_dangling_only() {
    let mut table = TestTable::new("test_partial");
    let data_file_path = "memory://test/data-1.parquet";
    table.commit_data_file(data_file_path);
    let dangling = position_delete_of(
        "memory://test/dangling.parquet",
        "memory://test/nonexistent.parquet",
    );
    let kept = position_delete_of("memory://test/kept.parquet", data_file_path);
    table.commit_files(vec![dangling, kept]);
    let removed = table.remove_dangling();
    assert_eq!(removed, 1);

    let found_kept = table.delete_file_is_live("memory://test/kept.parquet");
    let found_dangling = table.delete_file_is_live("memory://test/dangling.parquet");
    assert!(found_kept, "kept delete should still be live");
    assert!(!found_dangling, "dangling delete should be removed");
}

#[test]
fn test_partitioned_equality_delete_isolated_per_partition() {
    let mut table = TestTable::new("test_part_eq");
    table.commit_partitioned_file("memory://test/data-p1.parquet", DataContentType::Data, 1);
    table.commit_partitioned_file(
        "memory://test/eq-p1.parquet",
        DataContentType::EqualityDeletes,
        1,
    );
    table.commit_partitioned_file(
        "memory://test/eq-p2.parquet",
        DataContentType::EqualityDeletes,
        2,
    );
    table.commit_partitioned_file("memory://test/data-p2.parquet", DataContentType::Data, 2);

    let removed = table.remove_dangling();
    assert_eq!(removed, 1, "only the partition-2 equality delete is dangling");
    assert!(
        table.delete_file_is_live("memory://test/eq-p1.parquet"),
        "partition-1 equality delete should be kept"
    );
    assert!(
        !table.delete_file_is_live("memory://test/eq-p2.parquet"),
        "partition-2 equality delete should be removed"
    );
}

#[test]
fn test_partitioned_position_delete_isolated_per_partition() {
    let mut table = TestTable::new("test_part_pos");
    table.commit_partitioned_file("memory://test/data-p1.parquet", DataContentType::Data, 1);
    table.commit_partitioned_file(
        "memory://test/pos-p1.parquet",
        DataContentType::PositionDeletes,
        1,
    );
    table.commit_partitioned_file(
        "memory://test/pos-p2.parquet",
        DataContentType::PositionDeletes,
        2,
    );
    table.commit_partitioned_file("memory://test/data-p2.parquet", DataContentType::Data, 2);

    let removed = table.remove_dangling();
    assert_eq!(removed, 1, "only the partition-2 position delete is dangling");
    assert!(
        table.delete_file_is_live("memory://test/pos-p1.parquet"),
        "partition-1 position delete should be kept"
    );
    assert!(
        !table.delete_file_is_live("memory://test/pos-p2.parquet"),
        "partition-2 position delete should be removed"
    );
}

#[test]
fn test_shared_puffin_file_keeps_live_dv_removes_dangling_dv() {
    let mut table = TestTable::new("test_shared_puffin");
    let live_data_path = "memory://test/data-a.parquet";
    table.commit_data_file(live_data_path);

    let shared_puffin_path = "memory://test/shared.puffin";
    let live_dv = deletion_vector(shared_puffin_path, live_data_path, 4, 64);
    let dangling_dv =
        deletion_vector(shared_puffin_path, "memory://test/nonexistent.parquet", 200, 64);
    table.commit_files(vec![live_dv, dangling_dv]);

    let removed = table.remove_dangling();
    assert_eq!(removed, 1, "only the dangling DV blob should be removed");
    assert!(
        table.dv_entry_is_live(shared_puffin_path, 4),
        "the live DV blob sharing the Puffin file must survive"
    );
    assert!(
        !table.dv_entry_is_live(shared_puffin_path, 200),
        "the dangling DV blob should be removed"
    );
}

#[test]
fn test_shared_puffin_file_removes_both_dangling_dvs() {
    let mut table = TestTable::new("test_shared_puffin_both");
    let shared_puffin_path = "memory://test/shared.puffin";
    let dangling_dv_a =
        deletion_vector(shared_puffin_path, "memory://test/nonexistent-a.parquet", 4, 64);
    let dangling_dv_b =
        deletion_vector(shared_puffin_path, "memory://test/nonexistent-b.parquet", 200, 64);
    table.commit_files(vec![dangling_dv_a, dangling_dv_b]);

    let removed = table.remove_dangling();
    assert_eq!(
        removed, 2,
        "both dangling DV blobs must be counted and removed, not collapsed into one"
    );
    assert!(
        !table.dv_entry_is_live(shared_puffin_path, 4),
        "dangling DV blob A should be removed"
    );
    assert!(
        !table.dv_entry_is_live(shared_puffin_path, 200),
        "dangling DV blob B should be removed"
    );
}

#[test]
fn test_position_delete_without_ref_removed_by_bounds_inference() {
    let mut table = TestTable::new("test_pos_bounds");
    table.commit_partitioned_file("memory://test/data-a.parquet", DataContentType::Data, 1);

    // Its sequence number is not below that of the data file in the partition,
    // but its bounds leave only a data file that is not there.
    let target_path = "memory://test/nonexistent-data-b.parquet";
    table.commit_files(vec![DataFile {
        partition: Struct::new(vec![Some(Literal::Int(1))]),
        lower_bounds: HashMap::from([(
            FIELD_ID_POSITIONAL_DELETE_FILE_PATH,
            Literal::Str(target_path.to_string()),
        )]),
        upper_bounds: HashMap::from([(
            FIELD_ID_POSITIONAL_DELETE_FILE_PATH,
            Literal::Str(target_path.to_string()),
        )]),
        ..data_file(DataContentType::PositionDeletes, "memory://test/pos-bounds.parquet")
    }]);

    let removed = table.remove_dangling();
    assert_eq!(
        removed, 1,
        "bounds prove the delete targets an already-removed data file, so it is dangling \
         even though the partition-wide sequence check alone would keep it"
    );
    assert!(
        !table.delete_file_is_live("memory://test/pos-bounds.parquet"),
        "the bounds-scoped dangling position delete should be removed"
    );
}

#[test]
fn test_stale_scan_fails_instead_of_reapplying() {
    let mut table = TestTable::new("test_stale_scan");
    table.commit_data_file("memory://test/data-1.parquet");

    // The scan sees the table at this snapshot.
    let scanned_snapshot_id = table.snapshot_of(MAIN_BRANCH).unwrap();

    // Another writer commits on top of it.
    table.commit_data_file("memory://test/data-2.parquet");

    let guard = RequireScannedSnapshotAction {
        branch: MAIN_BRANCH.to_string(),
        snapshot_id: scanned_snapshot_id,
    };
    let mut transaction = Transaction::new();
    transaction.apply(guard.commit().unwrap());
    let result = transaction.commit(table.refs());

    assert!(
        result.is_err(),
        "commit must fail when the branch moved since the scan, not silently succeed \
         against the newer snapshot"
    );
    assert!(
        result.err().unwrap().retryable(),
        "the failure should be flagged retryable so callers know a fresh execute() call \
         (rescan) may succeed"
    );
}

#[test]
fn no_snapshot_removes_nothing() {
    let mut table = TestTable::new("test_empty");
    assert_eq!(table.remove_dangling(), 0);
    assert_eq!(table.last_sequence_number, 0);
}

#[test]
fn nothing_dangling_commits_nothing() {
    let mut table = TestTable::new("test_clean");
    table.commit_data_file("memory://test/data-1.parquet");
    let before = table.snapshot_of(MAIN_BRANCH);
    assert_eq!(table.remove_dangling(), 0);
    assert_eq!(table.snapshot_of(MAIN_BRANCH), before);
}

#[test]
fn another_branch_is_cleaned() {
    let mut table = TestTable::new("test_branch");
    table.commit_files(vec![equality_delete("memory://test/eq-del-1.parquet")]);
    let snapshot_id = table.snapshot_of(MAIN_BRANCH).unwrap();
    table.set_branch("audit", snapshot_id);
    let action =
        RemoveDanglingDeleteFilesAction::new("memory", table.ident()).to_branch("audit".to_string());
    assert_eq!(table.execute(action).unwrap(), 1);
    assert_eq!(table.snapshot_of(MAIN_BRANCH), Some(snapshot_id));
    assert_ne!(table.snapshot_of("audit"), Some(snapshot_id));
}

#[test]
fn a_second_run_removes_nothing() {
    let mut table = TestTable::new("test_twice");
    table.commit_files(vec![
        equality_delete("memory://test/eq-del-1.parquet"),
        position_delete_of("memory://test/pos-del-1.parquet", "memory://test/gone.parquet"),
    ]);
    table.commit_data_file("memory://test/data-1.parquet");
    assert_eq!(table.remove_dangling(), 2);
    assert_eq!(table.remove_dangling(), 0);
}

#[test]
fn a_run_is_refused_when_the_branch_moves_behind_its_scan() {
    let mut table = TestTable::new("test_intruder");
    let delete_path = "memory://test/pos-del-1.parquet";
    let data_path = "memory://test/data-1.parquet";
    table.commit_files(vec![position_delete_of(delete_path, data_path)]);
    table.intruder = Some(data_file(DataContentType::Data, data_path));

    let action = RemoveDanglingDeleteFilesAction::new("memory", table.ident());
    let refused = table.execute(action).unwrap_err();
    assert!(refused.retryable());
    assert!(table.delete_file_is_live(delete_path));

    // A fresh scan sees the data file that came in between.
    assert_eq!(table.remove_dangling(), 0);
}

#[test]
fn manifests_in_another_order_have_the_same_files_removed() {
    let mut table = TestTable::new("test_manifest_order");
    table.commit_files(vec![equality_delete("memory://test/eq-del-1.parquet")]);
    table.commit_data_file("memory://test/data-1.parquet");
    table.commit_files(vec![equality_delete("memory://test/eq-del-2.parquet")]);
    table.manifests.reverse();
    assert_eq!(table.remove_dangling(), 1);
    assert!(!table.delete_file_is_live("memory://test/eq-del-1.parquet"));
    assert!(table.delete_file_is_live("memory://test/eq-del-2.parquet"));
}
