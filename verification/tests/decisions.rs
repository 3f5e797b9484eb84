use std::collections::HashMap;

use dangling_deletes::{
    dedup_by_key, delete_file_key, try_infer_single_referenced_data_file_from_bounds, ActionCommit,
    Command, DataContentType, DataFile, DataFileFormat, Error, ErrorKind, Event, Execution, KeyIndex,
    Literal, LiveData, Manifest, ManifestEntry, ManifestStatus, PartitionKey,
    RemoveDanglingDeleteFilesAction, RequireScannedSnapshotAction, SnapshotScan, Struct, TableIdent,
    TableRefs, TableRequirement, TableUpdate, Transaction, FIELD_ID_POSITIONAL_DELETE_FILE_PATH,
    MAIN_BRANCH,
};

fn file(content: DataContentType, path: &str, partition: &[i32]) -> DataFile {
    DataFile {
        content,
        file_path: path.to_string(),
        file_format: DataFileFormat::Parquet,
        record_count: 1,
        file_size_in_bytes: 100,
        partition_spec_id: 0,
        partition: Struct::new(partition.iter().map(|n| Some(Literal::Int(*n))).collect()),
        equality_ids: None,
        referenced_data_file: None,
        content_offset: None,
        content_size_in_bytes: None,
        lower_bounds: HashMap::new(),
        upper_bounds: HashMap::new(),
    }
}

fn entry(data_file: DataFile, sequence_number: Option<i64>) -> ManifestEntry {
    ManifestEntry { status: ManifestStatus::Added, sequence_number, data_file }
}

fn data(path: &str, partition: &[i32], seq: i64) -> ManifestEntry {
    entry(file(DataContentType::Data, path, partition), Some(seq))
}

fn position(path: &str, partition: &[i32], seq: i64) -> ManifestEntry {
    entry(file(DataContentType::PositionDeletes, path, partition), Some(seq))
}

fn equality(path: &str, partition: &[i32], seq: i64) -> ManifestEntry {
    entry(file(DataContentType::EqualityDeletes, path, partition), Some(seq))
}

fn scoped(path: &str, target: &str, seq: Option<i64>) -> ManifestEntry {
    let mut delete = entry(file(DataContentType::PositionDeletes, path, &[]), seq);
    delete.data_file.referenced_data_file = Some(target.to_string());
    delete
}

fn scan(entries: Vec<ManifestEntry>) -> Vec<DataFile> {
    let mut scan = SnapshotScan::new();
    for entry in entries {
        scan.record(entry);
    }
    scan.into_dangling_files()
}

fn paths(files: &[DataFile]) -> Vec<&str> {
    files.iter().map(|file| file.file_path.as_str()).collect()
}

#[test]
fn position_delete_goes_only_below_the_least_sequence_number() {
    let removed = scan(vec![
        position("d4", &[1], 4),
        position("d5", &[1], 5),
        position("d6", &[1], 6),
        data("a", &[1], 9),
        data("b", &[1], 5),
    ]);
    assert_eq!(paths(&removed), vec!["d4"]);
}

#[test]
fn equality_delete_goes_up_to_the_least_sequence_number() {
    let removed = scan(vec![
        equality("d4", &[1], 4),
        equality("d5", &[1], 5),
        equality("d6", &[1], 6),
        data("a", &[1], 9),
        data("b", &[1], 5),
    ]);
    assert_eq!(paths(&removed), vec!["d4", "d5"]);
}

#[test]
fn equality_delete_without_partition_values_is_held_against_the_whole_table() {
    let removed = scan(vec![
        equality("global", &[], 3),
        equality("local", &[2], 3),
        data("old", &[1], 1),
        data("new", &[2], 7),
    ]);
    assert_eq!(paths(&removed), vec!["local"]);
}

#[test]
fn a_partition_spec_tells_partitions_apart() {
    let mut other_spec = position("d", &[1], 3);
    other_spec.data_file.partition_spec_id = 1;
    assert_eq!(paths(&scan(vec![other_spec, data("a", &[1], 1)])), vec!["d"]);
    assert!(scan(vec![position("d", &[1], 3), data("a", &[1], 1)]).is_empty());
}

#[test]
fn deletes_of_a_partition_without_data_go() {
    let removed = scan(vec![position("p", &[2], 9), equality("e", &[2], 9), data("a", &[1], 1)]);
    assert_eq!(paths(&removed), vec!["p", "e"]);
}

#[test]
fn a_path_decides_before_sequence_numbers_do() {
    let removed = scan(vec![
        scoped("kept", "a", Some(1)),
        scoped("gone", "b", Some(9)),
        scoped("unnumbered", "b", None),
        data("a", &[], 5),
    ]);
    assert_eq!(paths(&removed), vec!["gone", "unnumbered"]);
}

#[test]
fn deletes_of_unknown_reach_stay() {
    let removed = scan(vec![
        entry(file(DataContentType::PositionDeletes, "p", &[]), None),
        entry(file(DataContentType::EqualityDeletes, "e", &[]), None),
    ]);
    assert!(removed.is_empty());
}

#[test]
fn data_without_a_sequence_number_counts_by_its_path_alone() {
    let removed = scan(vec![
        entry(file(DataContentType::Data, "a", &[]), None),
        scoped("scoped", "a", Some(1)),
        position("p", &[], 1),
        equality("e", &[], 1),
    ]);
    assert_eq!(paths(&removed), vec!["p", "e"]);
}

#[test]
fn dead_entries_do_not_count() {
    let mut dead_data = data("a", &[], 1);
    dead_data.status = ManifestStatus::Deleted;
    let mut dead_delete = scoped("dead", "b", Some(2));
    dead_delete.status = ManifestStatus::Deleted;
    let mut existing = data("c", &[], 9);
    existing.status = ManifestStatus::Existing;
    let removed = scan(vec![
        dead_data,
        dead_delete,
        existing,
        scoped("of-a", "a", Some(2)),
        scoped("of-c", "c", Some(2)),
        equality("e", &[], 2),
    ]);
    assert_eq!(paths(&removed), vec!["of-a", "e"]);
}

#[test]
fn position_deletes_come_before_equality_deletes() {
    let removed = scan(vec![equality("e", &[], 1), scoped("p", "gone", Some(2))]);
    assert_eq!(paths(&removed), vec!["p", "e"]);
}

#[test]
fn the_order_of_entries_has_no_say_in_what_goes() {
    let forward = vec![
        data("a", &[1], 3),
        equality("e1", &[1], 3),
        equality("e2", &[1], 4),
        position("p", &[2], 1),
        data("b", &[2], 2),
    ];
    let mut backward = forward.clone();
    backward.reverse();
    let forward = scan(forward);
    let backward = scan(backward);
    assert_eq!(paths(&forward), vec!["p", "e1"]);
    assert_eq!(paths(&backward), vec!["p", "e1"]);
}

#[test]
fn an_identity_goes_once_and_its_first_file_is_the_one() {
    let mut first = scoped("d", "gone", Some(1));
    first.data_file.record_count = 10;
    let mut second = scoped("d", "gone", Some(1));
    second.data_file.record_count = 20;
    let mut vector = scoped("d", "gone", Some(1));
    vector.data_file.content_offset = Some(4);
    let mut longer = vector.clone();
    longer.data_file.content_size_in_bytes = Some(64);
    let removed = scan(vec![first, second, vector, longer]);
    assert_eq!(removed.len(), 3);
    assert_eq!(removed[0].record_count, 10);
    assert_eq!(removed[1].content_offset, Some(4));
    assert_eq!(removed[2].content_size_in_bytes, Some(64));
    assert_ne!(delete_file_key(&removed[1]), delete_file_key(&removed[2]));
    assert!(dedup_by_key(Vec::new()).is_empty());
}

#[test]
fn data_files_are_never_dangling() {
    let live = LiveData::new();
    assert!(!live.is_dangling(&data("a", &[], 1)));
    assert!(live.is_dangling(&equality("e", &[], 1)));
    assert!(live.position_delete_is_dangling(&position("p", &[], 1)));
    assert!(live.equality_delete_is_dangling(&equality("e", &[], 1)));
}

fn with_bounds(lower: Option<Literal>, upper: Option<Literal>) -> DataFile {
    let mut delete = file(DataContentType::PositionDeletes, "d", &[]);
    if let Some(lower) = lower {
        delete.lower_bounds.insert(FIELD_ID_POSITIONAL_DELETE_FILE_PATH, lower);
    }
    if let Some(upper) = upper {
        delete.upper_bounds.insert(FIELD_ID_POSITIONAL_DELETE_FILE_PATH, upper);
    }
    delete
}

fn text(s: &str) -> Option<Literal> {
    Some(Literal::Str(s.to_string()))
}

#[test]
fn bounds_name_a_file_only_where_they_meet() {
    let infer = |file: &DataFile| try_infer_single_referenced_data_file_from_bounds(file);
    assert_eq!(infer(&with_bounds(text("a"), text("a"))), Some("a".to_string()));
    assert_eq!(infer(&with_bounds(text("a"), text("b"))), None);
    assert_eq!(infer(&with_bounds(text("a"), None)), None);
    assert_eq!(infer(&with_bounds(None, text("a"))), None);
    assert_eq!(infer(&with_bounds(None, None)), None);
    assert_eq!(infer(&with_bounds(Some(Literal::Int(1)), Some(Literal::Int(1)))), None);
    let mut other_column = file(DataContentType::PositionDeletes, "d", &[]);
    other_column.lower_bounds.insert(1, Literal::Str("a".to_string()));
    other_column.upper_bounds.insert(1, Literal::Str("a".to_string()));
    assert_eq!(infer(&other_column), None);
    assert_eq!(FIELD_ID_POSITIONAL_DELETE_FILE_PATH, 2147483546);
}

#[test]
fn bounds_scope_a_delete_to_a_file_that_is_there() {
    let kept = entry(with_bounds(text("a"), text("a")), Some(1));
    assert!(scan(vec![kept, data("a", &[], 9)]).is_empty());
    let mut named = entry(with_bounds(text("gone"), text("gone")), Some(1));
    named.data_file.referenced_data_file = Some("a".to_string());
    assert!(scan(vec![named, data("a", &[], 9)]).is_empty());
}

fn literals() -> Vec<Option<Literal>> {
    vec![
        None,
        Some(Literal::Boolean(false)),
        Some(Literal::Boolean(true)),
        Some(Literal::Int(1)),
        Some(Literal::Int(-1)),
        Some(Literal::Long(1)),
        Some(Literal::Float(1)),
        Some(Literal::Double(1)),
        Some(Literal::Str(String::new())),
        Some(Literal::Str("a".to_string())),
        Some(Literal::Binary(vec![])),
        Some(Literal::Binary(vec![97])),
        Some(Literal::Binary(vec![97, 98])),
        Some(Literal::Int128(1)),
        Some(Literal::UInt128(1)),
    ]
}

#[test]
fn partition_values_are_equal_by_variant_and_contents() {
    let all = literals();
    for (i, a) in all.iter().enumerate() {
        for (j, b) in all.iter().enumerate() {
            let x = Struct::new(vec![a.clone()]);
            let y = Struct::new(vec![b.clone()]);
            assert_eq!(x.same(&y), i == j);
            assert!(!x.same(&Struct::new(vec![a.clone(), b.clone()])));
        }
    }
    assert!(Struct::empty().same(&Struct::new(vec![])));
}

#[test]
fn an_index_keeps_the_last_value_of_each_key() {
    let mut index: KeyIndex<PartitionKey, i64> = KeyIndex::new();
    let key = |spec_id: i32, field: &Option<Literal>| PartitionKey {
        spec_id,
        partition: Struct::new(vec![field.clone()]),
    };
    for (i, field) in literals().iter().enumerate() {
        index.insert(key(0, field), 0);
        index.insert(key(0, field), i as i64);
        index.insert(key(1, field), -1);
    }
    for (i, field) in literals().iter().enumerate() {
        assert_eq!(index.get(&key(0, field)), Some(i as i64));
        assert_eq!(index.get(&key(1, field)), Some(-1));
        assert_eq!(index.get(&key(2, field)), None);
    }
}

fn started() -> (Execution, Command) {
    let ident = TableIdent { namespace: vec!["ns".to_string()], name: "t".to_string() };
    let (catalog, execution, command) =
        RemoveDanglingDeleteFilesAction::new(7u8, ident).execute();
    assert_eq!(catalog, 7);
    (execution, command)
}

fn after(events: Vec<Event>) -> (Execution, Command) {
    let (mut execution, mut command) = started();
    for event in events {
        assert!(execution.expects(&event));
        let (next, asked) = execution.step(event);
        execution = next;
        command = asked;
    }
    (execution, command)
}

fn found() -> Event {
    Event::TableLoaded { snapshot_id: Some(42) }
}

fn two_dangling() -> Event {
    Event::ManifestLoaded(Manifest {
        entries: vec![scoped("p", "gone", Some(1)), equality("e", &[], 1)],
    })
}

fn refused() -> Error {
    Error::new(ErrorKind::DataInvalid, "no".to_string())
}

#[test]
fn a_run_starts_by_loading_the_main_branch() {
    let (_, command) = started();
    assert_eq!(MAIN_BRANCH, "main");
    assert_eq!(
        command,
        Command::LoadTable {
            table_ident: TableIdent { namespace: vec!["ns".to_string()], name: "t".to_string() },
            branch: "main".to_string(),
        }
    );
}

#[test]
fn a_run_adds_the_guard_then_the_rewrite_then_commits() {
    let (_, command) = after(vec![found()]);
    assert_eq!(command, Command::LoadManifests { snapshot_id: 42 });
    let (_, command) = after(vec![found(), two_dangling()]);
    assert_eq!(command, Command::NextManifest);
    let (_, command) = after(vec![found(), two_dangling(), Event::ManifestsExhausted]);
    assert_eq!(
        command,
        Command::ApplyGuard(RequireScannedSnapshotAction {
            branch: "main".to_string(),
            snapshot_id: 42,
        })
    );
    let (_, command) =
        after(vec![found(), two_dangling(), Event::ManifestsExhausted, Event::Applied]);
    match command {
        Command::ApplyRewrite(rewrite) => {
            assert_eq!(paths(&rewrite.delete_files), vec!["p", "e"]);
            assert_eq!(rewrite.target_branch, "main");
        }
        other => panic!("{:?}", other),
    }
    let mut events = vec![found(), two_dangling(), Event::ManifestsExhausted];
    events.push(Event::Applied);
    events.push(Event::Applied);
    let (execution, command) = after(events);
    assert_eq!(command, Command::Commit);
    let (execution, command) = execution.step(Event::Committed);
    assert_eq!(command, Command::Finish(Ok(2)));
    assert!(!execution.expects(&Event::Committed));
    assert!(!execution.expects(&Event::Failed(refused())));
}

#[test]
fn a_run_that_finds_nothing_asks_for_no_transaction() {
    let (_, command) = after(vec![Event::TableLoaded { snapshot_id: None }]);
    assert_eq!(command, Command::Finish(Ok(0)));
    let (_, command) = after(vec![found(), Event::ManifestsExhausted]);
    assert_eq!(command, Command::Finish(Ok(0)));
}

#[test]
fn a_failure_ends_the_run_as_it_is() {
    let failed = Command::Finish(Err(refused()));
    assert_eq!(after(vec![Event::Failed(refused())]).1, failed);
    assert_eq!(after(vec![found(), Event::Failed(refused())]).1, failed);
    let mut events = vec![found(), two_dangling(), Event::ManifestsExhausted];
    events.push(Event::Applied);
    events.push(Event::Applied);
    events.push(Event::Failed(refused()));
    assert_eq!(after(events).1, failed);
}

#[test]
fn an_action_that_cannot_be_added_says_so() {
    let unexpected = |message: &str| {
        Command::Finish(Err(Error::new(ErrorKind::Unexpected, message.to_string())))
    };
    let mut events = vec![found(), two_dangling(), Event::ManifestsExhausted];
    events.push(Event::ApplyFailed { reason: "why".to_string() });
    assert_eq!(after(events).1, unexpected("Failed to build snapshot-guard action: why"));
    let mut events = vec![found(), two_dangling(), Event::ManifestsExhausted, Event::Applied];
    events.push(Event::ApplyFailed { reason: "why".to_string() });
    assert_eq!(after(events).1, unexpected("Failed to build rewrite action: why"));
}

#[test]
fn a_run_expects_only_what_its_command_can_bring() {
    let (execution, _) = started();
    assert!(!execution.expects(&Event::ManifestsExhausted));
    assert!(!execution.expects(&Event::Applied));
    assert!(!execution.expects(&Event::ApplyFailed { reason: String::new() }));
    let (execution, _) = after(vec![found()]);
    assert!(!execution.expects(&found()));
    assert!(!execution.expects(&Event::Committed));
}

fn refs(snapshot_id: i64) -> TableRefs {
    let mut refs = TableRefs::new();
    refs.insert("main".to_string(), snapshot_id);
    refs
}

fn guard(snapshot_id: i64) -> ActionCommit {
    RequireScannedSnapshotAction { branch: "main".to_string(), snapshot_id }.commit().unwrap()
}

fn move_to(snapshot_id: i64) -> ActionCommit {
    ActionCommit::new(
        vec![TableUpdate::SetSnapshotRef { ref_name: "main".to_string(), snapshot_id }],
        vec![],
    )
}

fn committed(actions: Vec<ActionCommit>, snapshot_id: i64) -> Result<Option<i64>, Error> {
    let mut transaction = Transaction::new();
    for action in actions {
        transaction.apply(action);
    }
    match transaction.commit(refs(snapshot_id)) {
        Ok(moved) => Ok(moved.get(&"main".to_string())),
        Err(e) => Err(e),
    }
}

#[test]
fn the_guard_requires_and_changes_nothing() {
    assert_eq!(
        guard(3),
        ActionCommit::new(
            vec![],
            vec![TableRequirement::RefSnapshotIdMatch {
                ref_name: "main".to_string(),
                snapshot_id: Some(3),
            }],
        )
    );
    assert_eq!(committed(vec![guard(3)], 3), Ok(Some(3)));
}

#[test]
fn the_guard_has_to_come_first() {
    assert_eq!(committed(vec![guard(3), move_to(4)], 3), Ok(Some(4)));
    assert!(committed(vec![move_to(4), guard(3)], 3).is_err());
}

#[test]
fn a_moved_branch_is_a_retryable_conflict() {
    let conflict = committed(vec![guard(3), move_to(5)], 4).unwrap_err();
    assert_eq!(conflict.kind, ErrorKind::CatalogCommitConflicts);
    assert!(conflict.retryable());
    assert_eq!(conflict.message, "Requirement failed: not at the expected snapshot: main");
}

#[test]
fn a_requirement_can_ask_that_a_ref_is_not_there() {
    let absent = |name: &str| TableRequirement::RefSnapshotIdMatch {
        ref_name: name.to_string(),
        snapshot_id: None,
    };
    assert!(absent("other").check(&refs(3)).is_ok());
    assert!(absent("main").check(&refs(3)).is_err());
}
