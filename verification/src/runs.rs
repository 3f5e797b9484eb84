//! What holds of whole runs of the action, and of the commit that ends one.

use crate::action::{Command, CommandView, Event, ExecutionView, MAIN_BRANCH};
use crate::dangling;
use crate::error::{Error, ErrorKind, ErrorView};
use crate::laws;
use crate::manifest::{DataFile, Manifest, ManifestEntry};
use crate::transaction::{
    self, ActionCommit, ActionCommitView, TableRefs, TableRequirement, TableRequirementView,
    TableUpdateView, Transaction,
};
use vstd::prelude::*;

verus! {

/// Where a run on `branch` stands after the events.
pub open spec fn state_after(branch: Seq<char>, events: Seq<Event>) -> ExecutionView
    decreases events.len(),
{
    if events.len() == 0 {
        ExecutionView::LoadingTable { branch }
    } else {
        state_after(branch, events.drop_last()).next(events.last()).0
    }
}

/// What a run on `branch` asks for after the events, of which there is at least
/// one.
pub open spec fn command_after(branch: Seq<char>, events: Seq<Event>) -> CommandView {
    state_after(branch, events.drop_last()).next(events.last()).1
}

/// Each event is one that the run expects when it comes.
pub open spec fn accepted(branch: Seq<char>, events: Seq<Event>) -> bool
    decreases events.len(),
{
    events.len() > 0 ==> {
        &&& accepted(branch, events.drop_last())
        &&& state_after(branch, events.drop_last()).expects(events.last())
    }
}

/// The entries of the manifests that were handed over.
pub open spec fn scanned(events: Seq<Event>) -> Seq<ManifestEntry>
    decreases events.len(),
{
    if events.len() == 0 {
        Seq::empty()
    } else {
        match events.last() {
            Event::ManifestLoaded(manifest) => scanned(events.drop_last()) + manifest.entries@,
            _ => scanned(events.drop_last()),
        }
    }
}

/// The run found its branch at this snapshot.
pub open spec fn found_at(events: Seq<Event>, snapshot_id: i64) -> bool {
    &&& events.len() > 0
    &&& events[0] == Event::TableLoaded { snapshot_id: Some(snapshot_id) }
}

/// The snapshot that the run found its branch at.
pub open spec fn scanned_snapshot(events: Seq<Event>) -> i64 {
    match events[0] {
        Event::TableLoaded { snapshot_id: Some(snapshot_id) } => snapshot_id,
        _ => arbitrary(),
    }
}

/// The state of a run tells what came before.
proof fn lemma_history(branch: Seq<char>, events: Seq<Event>)
    requires
        accepted(branch, events),
    ensures
        ({
            let n = events.len() as int;
            let id = scanned_snapshot(events);
            let files = dangling::dangling_files(scanned(events));
            let guard = CommandView::ApplyGuard { branch, snapshot_id: id };
            let rewrite = CommandView::ApplyRewrite {
                delete_files: files,
                target_branch: branch,
            };
            match state_after(branch, events) {
                ExecutionView::LoadingTable { branch: b } => n == 0 && b == branch,
                ExecutionView::Scanning { branch: b, snapshot_id, entries } => {
                    &&& found_at(events, snapshot_id)
                    &&& b == branch
                    &&& entries == scanned(events)
                    &&& command_after(branch, events) is LoadManifests || command_after(
                        branch,
                        events,
                    ) is NextManifest
                },
                ExecutionView::ApplyingGuard { branch: b, delete_files } => {
                    &&& n >= 2
                    &&& found_at(events, id)
                    &&& b == branch
                    &&& delete_files == files
                    &&& files.len() > 0
                    &&& command_after(branch, events) == guard
                },
                ExecutionView::ApplyingRewrite { count } => {
                    &&& n >= 3
                    &&& found_at(events, id)
                    &&& count == files.len()
                    &&& files.len() > 0
                    &&& command_after(branch, events.take(n - 1)) == guard
                    &&& command_after(branch, events) == rewrite
                },
                ExecutionView::Committing { count } => {
                    &&& n >= 4
                    &&& found_at(events, id)
                    &&& count == files.len()
                    &&& files.len() > 0
                    &&& command_after(branch, events.take(n - 2)) == guard
                    &&& command_after(branch, events.take(n - 1)) == rewrite
                    &&& command_after(branch, events) == CommandView::Commit
                },
                ExecutionView::Finished => n > 0 && command_after(branch, events) is Finish,
            }
        }),
    decreases events.len(),
{
    if events.len() > 0 {
        let rest = events.drop_last();
        let n = events.len() as int;
        lemma_history(branch, rest);
        assert(events.take(n - 1) =~= rest);
        if n >= 2 {
            assert(rest[0] == events[0]);
            assert(events.take(n - 2) =~= rest.take(n - 2));
        }
    }
}

/// A run only commits a guarded rewrite: where it asks for the commit, it has
/// before asked to add, first, the guard for the branch at the very snapshot
/// that it found there, and then the rewrite that removes from that branch
/// exactly the dangling files among the entries that it scanned.
pub proof fn law_commit_is_guarded(branch: Seq<char>, events: Seq<Event>)
    requires
        events.len() > 0,
        accepted(branch, events),
        command_after(branch, events) == CommandView::Commit,
    ensures
        events.len() >= 4,
        found_at(events, scanned_snapshot(events)),
        command_after(branch, events.take(events.len() - 2)) == (CommandView::ApplyGuard {
            branch,
            snapshot_id: scanned_snapshot(events),
        }),
        command_after(branch, events.take(events.len() - 1)) == (CommandView::ApplyRewrite {
            delete_files: dangling::dangling_files(scanned(events)),
            target_branch: branch,
        }),
{
    lemma_history(branch, events);
}

/// While a run loads and scans, it has asked for nothing else.
proof fn lemma_scanning_only_loads(branch: Seq<char>, events: Seq<Event>, k: int)
    requires
        accepted(branch, events),
        state_after(branch, events) is Scanning,
        0 < k <= events.len(),
    ensures
        command_after(branch, events.take(k)) is LoadManifests || command_after(
            branch,
            events.take(k),
        ) is NextManifest,
    decreases events.len(),
{
    lemma_history(branch, events);
    if k < events.len() {
        let rest = events.drop_last();
        lemma_history(branch, rest);
        lemma_scanning_only_loads(branch, rest, k);
        assert(rest.take(k) =~= events.take(k));
    } else {
        assert(events.take(k) =~= events);
    }
}

/// A run that ends well says how many files it removed: none where its branch
/// has no snapshot, and otherwise the number of dangling files among the entries
/// that it scanned.
///
/// Where that is none, it has only loaded and scanned, and no transaction was
/// begun. Where it is not, the commit has just gone through.
pub proof fn law_result_is_the_number_removed(branch: Seq<char>, events: Seq<Event>, count: nat)
    requires
        events.len() > 0,
        accepted(branch, events),
        command_after(branch, events) == CommandView::Finish(Ok(count)),
    ensures
        events[0] matches Event::TableLoaded { snapshot_id } && match snapshot_id {
            None => count == 0 && events.len() == 1,
            Some(_) => count == dangling::dangling_files(scanned(events)).len(),
        },
        count > 0 ==> events.last() is Committed && command_after(branch, events.drop_last())
            == CommandView::Commit,
        count == 0 ==> forall|k: int|
            0 < k < events.len() ==> (#[trigger] command_after(branch, events.take(k))
                is LoadManifests || command_after(branch, events.take(k)) is NextManifest),
{
    let rest = events.drop_last();
    lemma_history(branch, rest);
    if rest.len() > 0 {
        assert(rest[0] == events[0]);
    }
    if count == 0 {
        assert forall|k: int| 0 < k < events.len() implies (#[trigger] command_after(
            branch,
            events.take(k),
        ) is LoadManifests || command_after(branch, events.take(k)) is NextManifest) by {
            lemma_scanning_only_loads(branch, rest, k);
            assert(rest.take(k) =~= events.take(k));
        }
    }
}

/// The events of a scan that nothing interrupts.
pub open spec fn scan_events(snapshot_id: i64, manifests: Seq<Manifest>) -> Seq<Event> {
    seq![Event::TableLoaded { snapshot_id: Some(snapshot_id) }] + manifests.map_values(
        |m: Manifest| Event::ManifestLoaded(m),
    )
}

/// The entries of a list of manifests.
pub open spec fn entries_of(manifests: Seq<Manifest>) -> Seq<ManifestEntry>
    decreases manifests.len(),
{
    if manifests.len() == 0 {
        Seq::empty()
    } else {
        entries_of(manifests.drop_last()) + manifests.last().entries@
    }
}

/// A scan that nothing interrupts scans the entries of all manifests.
proof fn lemma_scan(branch: Seq<char>, snapshot_id: i64, manifests: Seq<Manifest>)
    ensures
        accepted(branch, scan_events(snapshot_id, manifests)),
        state_after(branch, scan_events(snapshot_id, manifests)) == (ExecutionView::Scanning {
            branch,
            snapshot_id,
            entries: entries_of(manifests),
        }),
    decreases manifests.len(),
{
    let events = scan_events(snapshot_id, manifests);
    let rest = events.drop_last();
    if manifests.len() == 0 {
        assert(rest =~= Seq::empty());
        assert(accepted(branch, rest));
    } else {
        lemma_scan(branch, snapshot_id, manifests.drop_last());
        assert(rest =~= scan_events(snapshot_id, manifests.drop_last()));
        assert(events.last() == Event::ManifestLoaded(manifests.last()));
    }
}

/// A run that nothing interrupts ends well: it removes the dangling files of
/// the snapshot, or asks for no transaction where there are none.
pub proof fn law_uninterrupted_run(
    branch: Seq<char>,
    snapshot_id: i64,
    manifests: Seq<Manifest>,
)
    ensures
        ({
            let files = dangling::dangling_files(entries_of(manifests));
            let all_read = scan_events(snapshot_id, manifests).push(Event::ManifestsExhausted);
            let guarded = all_read.push(Event::Applied);
            let rewritten = guarded.push(Event::Applied);
            let committed = rewritten.push(Event::Committed);
            &&& accepted(branch, all_read)
            &&& files.len() == 0 ==> command_after(branch, all_read) == CommandView::Finish(Ok(0))
            &&& files.len() > 0 ==> {
                &&& accepted(branch, committed)
                &&& command_after(branch, all_read) == (CommandView::ApplyGuard {
                    branch,
                    snapshot_id,
                })
                &&& command_after(branch, guarded) == (CommandView::ApplyRewrite {
                    delete_files: files,
                    target_branch: branch,
                })
                &&& command_after(branch, rewritten) == CommandView::Commit
                &&& command_after(branch, committed) == CommandView::Finish(Ok(files.len()))
            }
        }),
{
    let scan = scan_events(snapshot_id, manifests);
    let all_read = scan.push(Event::ManifestsExhausted);
    let guarded = all_read.push(Event::Applied);
    let rewritten = guarded.push(Event::Applied);
    let committed = rewritten.push(Event::Committed);
    lemma_scan(branch, snapshot_id, manifests);
    assert(all_read.drop_last() =~= scan);
    assert(guarded.drop_last() =~= all_read);
    assert(rewritten.drop_last() =~= guarded);
    assert(committed.drop_last() =~= rewritten);
    assert(accepted(branch, all_read));
    if dangling::dangling_files(entries_of(manifests)).len() > 0 {
        assert(accepted(branch, guarded));
        assert(accepted(branch, rewritten));
    }
}

/// The entries of a list of manifests are those that some manifest lists.
proof fn lemma_entries_of(manifests: Seq<Manifest>, e: ManifestEntry)
    ensures
        entries_of(manifests).contains(e) <==> exists|i: int|
            0 <= i < manifests.len() && (#[trigger] manifests[i]).entries@.contains(e),
    decreases manifests.len(),
{
    broadcast use vstd::seq_lib::lemma_seq_concat_contains_all_elements;

    if manifests.len() > 0 {
        let rest = manifests.drop_last();
        lemma_entries_of(rest, e);
        if entries_of(rest).contains(e) {
            let i = choose|i: int|
                0 <= i < rest.len() && (#[trigger] rest[i]).entries@.contains(e);
            assert(manifests[i] == rest[i]);
        }
        if exists|i: int|
            0 <= i < manifests.len() && (#[trigger] manifests[i]).entries@.contains(e) {
            let i = choose|i: int|
                0 <= i < manifests.len() && (#[trigger] manifests[i]).entries@.contains(e);
            if i < rest.len() {
                assert(rest[i] == manifests[i]);
            }
        }
    } else {
        assert(!entries_of(manifests).contains(e));
    }
}

/// Manifests may be loaded in any order: the same manifests in another order
/// have the same files removed, and as many.
pub proof fn law_manifest_order_has_no_say(manifests: Seq<Manifest>, others: Seq<Manifest>)
    requires
        manifests.to_multiset() == others.to_multiset(),
    ensures
        forall|file: DataFile| #[trigger]
            dangling::has_key_of(dangling::dangling_files(entries_of(manifests)), file)
                == dangling::has_key_of(dangling::dangling_files(entries_of(others)), file),
        dangling::dangling_files(entries_of(manifests)).len() == dangling::dangling_files(
            entries_of(others),
        ).len(),
{
    lemma_same_entries(manifests, others);
    lemma_same_entries(others, manifests);
    assert(entries_of(manifests).to_set() =~= entries_of(others).to_set());
    laws::law_order_has_no_say(entries_of(manifests), entries_of(others));
}

/// The same manifests in another order list the same entries.
proof fn lemma_same_entries(manifests: Seq<Manifest>, others: Seq<Manifest>)
    requires
        manifests.to_multiset() == others.to_multiset(),
    ensures
        forall|e: ManifestEntry| #[trigger]
            entries_of(manifests).contains(e) ==> entries_of(others).contains(e),
{
    assert forall|e: ManifestEntry| #[trigger] entries_of(manifests).contains(e) implies entries_of(
        others,
    ).contains(e) by {
        lemma_entries_of(manifests, e);
        lemma_entries_of(others, e);
        let i = choose|i: int|
            0 <= i < manifests.len() && (#[trigger] manifests[i]).entries@.contains(e);
        let m = manifests[i];
        assert(manifests.contains(m));
        vstd::seq_lib::to_multiset_contains(manifests, m);
        vstd::seq_lib::to_multiset_contains(others, m);
        let j = choose|j: int| 0 <= j < others.len() && others[j] == m;
        assert(others[j].entries@.contains(e));
    }
}

/// Committing actions together is committing the first ones, and the others to
/// what they leave.
proof fn lemma_commit_concat(
    first: Seq<ActionCommitView>,
    others: Seq<ActionCommitView>,
    refs: Map<Seq<char>, i64>,
)
    ensures
        transaction::commit_outcome(first + others, refs) == match transaction::commit_outcome(
            first,
            refs,
        ) {
            Ok(moved) => transaction::commit_outcome(others, moved),
            Err(e) => Err(e),
        },
    decreases others.len(),
{
    if others.len() == 0 {
        assert(first + others =~= first);
    } else {
        lemma_commit_concat(first, others.drop_last(), refs);
        assert((first + others).drop_last() =~= first + others.drop_last());
    }
}

/// What becomes of the guard alone.
proof fn lemma_guard_outcome(branch: Seq<char>, snapshot_id: i64, refs: Map<Seq<char>, i64>)
    ensures
        refs.contains_key(branch) && refs[branch] == snapshot_id ==> transaction::guard_commit(
            branch,
            snapshot_id,
        ).outcome(refs) == Ok::<_, crate::error::ErrorView>(refs),
        !(refs.contains_key(branch) && refs[branch] == snapshot_id) ==> {
            &&& transaction::guard_commit(branch, snapshot_id).outcome(refs) matches Err(e)
            &&& e.kind == ErrorKind::CatalogCommitConflicts
            &&& e.message == transaction::REF_MOVED@ + branch
            &&& e.retryable
        },
{
    let requirements = transaction::guard_commit(branch, snapshot_id).requirements;
    assert(requirements.drop_last() =~= Seq::empty());
    assert(transaction::first_conflict(requirements.drop_last(), refs) is None);
}

/// A stale scan is never committed: where the branch has left the scanned
/// snapshot, a commit that the guard comes first in fails, whatever comes behind
/// it, and the failure says that another attempt may succeed.
pub proof fn law_stale_scan_fails(
    branch: Seq<char>,
    snapshot_id: i64,
    others: Seq<ActionCommitView>,
    refs: Map<Seq<char>, i64>,
)
    requires
        !(refs.contains_key(branch) && refs[branch] == snapshot_id),
    ensures
        transaction::commit_outcome(
            seq![transaction::guard_commit(branch, snapshot_id)] + others,
            refs,
        ) matches Err(e) && e.kind == ErrorKind::CatalogCommitConflicts && e.message
            == transaction::REF_MOVED@ + branch && e.retryable,
{
    let guard = seq![transaction::guard_commit(branch, snapshot_id)];
    lemma_commit_concat(guard, others, refs);
    lemma_guard_outcome(branch, snapshot_id, refs);
    assert(guard.drop_last() =~= Seq::empty());
    assert(transaction::commit_outcome(guard.drop_last(), refs) == Ok::<
        Map<Seq<char>, i64>,
        crate::error::ErrorView,
    >(refs));
}

/// The guard changes nothing: where the branch is still at the scanned snapshot,
/// a commit comes out as it would without the guard.
pub proof fn law_guard_changes_nothing(
    branch: Seq<char>,
    snapshot_id: i64,
    others: Seq<ActionCommitView>,
    refs: Map<Seq<char>, i64>,
)
    requires
        refs.contains_key(branch),
        refs[branch] == snapshot_id,
    ensures
        transaction::commit_outcome(
            seq![transaction::guard_commit(branch, snapshot_id)] + others,
            refs,
        ) == transaction::commit_outcome(others, refs),
{
    let guard = seq![transaction::guard_commit(branch, snapshot_id)];
    lemma_commit_concat(guard, others, refs);
    lemma_guard_outcome(branch, snapshot_id, refs);
    assert(guard.drop_last() =~= Seq::empty());
    assert(transaction::commit_outcome(guard.drop_last(), refs) == Ok::<
        Map<Seq<char>, i64>,
        crate::error::ErrorView,
    >(refs));
}

/// Behind an action that moves the branch to another snapshot, the guard lets
/// nothing through, not even where the scan is fresh. So it has to come first.
pub proof fn law_guard_behind_a_move_never_passes(
    branch: Seq<char>,
    snapshot_id: i64,
    moving: Seq<ActionCommitView>,
    refs: Map<Seq<char>, i64>,
)
    requires
        transaction::commit_outcome(moving, refs) matches Ok(moved) && !(moved.contains_key(branch)
            && moved[branch] == snapshot_id),
    ensures
        transaction::commit_outcome(
            moving.push(transaction::guard_commit(branch, snapshot_id)),
            refs,
        ) is Err,
{
    let all = moving.push(transaction::guard_commit(branch, snapshot_id));
    assert(all.drop_last() =~= moving);
    lemma_guard_outcome(
        branch,
        snapshot_id,
        transaction::commit_outcome(moving, refs)->Ok_0,
    );
}

/// A failure to load or to commit ends the run with that failure, as it is: a
/// refused commit is answered with what refused it, and no files count as
/// removed. A run that is over expects nothing more.
pub proof fn law_failure_ends_the_run(
    branch: Seq<char>,
    events: Seq<Event>,
    failure: crate::error::Error,
    later: Event,
)
    requires
        accepted(branch, events.push(Event::Failed(failure))),
    ensures
        command_after(branch, events.push(Event::Failed(failure))) == CommandView::Finish(
            Err(failure@),
        ),
        !accepted(branch, events.push(Event::Failed(failure)).push(later)),
{
    let failed = events.push(Event::Failed(failure));
    assert(failed.drop_last() =~= events);
    assert(failed.push(later).drop_last() =~= failed);
}

/// The view of a command holds what the command does.
pub proof fn law_command_view(command: Command)
    ensures
        match command {
            Command::LoadTable { table_ident, branch } => command@ == (CommandView::LoadTable {
                table_ident,
                branch: branch@,
            }),
            Command::LoadManifests { snapshot_id } => command@ == (CommandView::LoadManifests {
                snapshot_id,
            }),
            Command::NextManifest => command@ == CommandView::NextManifest,
            Command::ApplyGuard(guard) => command@ == (CommandView::ApplyGuard {
                branch: guard.branch@,
                snapshot_id: guard.snapshot_id,
            }),
            Command::ApplyRewrite(rewrite) => command@ == (CommandView::ApplyRewrite {
                delete_files: rewrite.delete_files@,
                target_branch: rewrite.target_branch@,
            }),
            Command::Commit => command@ == CommandView::Commit,
            Command::Finish(Ok(count)) => command@ == CommandView::Finish(Ok(count as nat)),
            Command::Finish(Err(e)) => command@ == CommandView::Finish(
                Err(ErrorView { kind: e.kind, message: e.message@, retryable: e.retryable }),
            ),
        },
{
}

/// The branch that is cleaned unless another is named is `main`.
pub proof fn law_main_branch()
    ensures
        MAIN_BRANCH@ == "main"@,
{
}

/// The entries that a run has scanned are those of the manifests that were
/// handed over, in that order, and nothing else adds to them.
pub proof fn law_scanned_entries(first: Seq<Event>, others: Seq<Event>, event: Event)
    ensures
        scanned(first + others) == scanned(first) + scanned(others),
        scanned(seq![event]) == match event {
            Event::ManifestLoaded(manifest) => manifest.entries@,
            _ => Seq::empty(),
        },
    decreases others.len(),
{
    assert(seq![event].drop_last() =~= Seq::empty());
    assert(scanned(seq![event].drop_last()) =~= Seq::empty());
    assert(scanned(seq![event]) =~= match event {
        Event::ManifestLoaded(manifest) => manifest.entries@,
        _ => Seq::empty(),
    });
    if others.len() == 0 {
        assert(first + others =~= first);
        assert(scanned(first) + scanned(others) =~= scanned(first));
    } else {
        law_scanned_entries(first, others.drop_last(), event);
        assert((first + others).drop_last() =~= first + others.drop_last());
        assert(scanned(first + others) =~= scanned(first) + scanned(others));
    }
}

/// The entries of a list of manifests are those of each, in that order.
pub proof fn law_entries_of_manifests(
    first: Seq<Manifest>,
    others: Seq<Manifest>,
    manifest: Manifest,
)
    ensures
        entries_of(first + others) == entries_of(first) + entries_of(others),
        entries_of(seq![manifest]) == manifest.entries@,
    decreases others.len(),
{
    assert(seq![manifest].drop_last() =~= Seq::empty());
    assert(entries_of(seq![manifest].drop_last()) =~= Seq::empty());
    assert(entries_of(seq![manifest]) =~= manifest.entries@);
    if others.len() == 0 {
        assert(first + others =~= first);
        assert(entries_of(first) + entries_of(others) =~= entries_of(first));
    } else {
        law_entries_of_manifests(first, others.drop_last(), manifest);
        assert((first + others).drop_last() =~= first + others.drop_last());
        assert(entries_of(first + others) =~= entries_of(first) + entries_of(others));
    }
}

/// Which events a run expects follows from what it last asked for. The first
/// thing that it asks for is the table.
pub proof fn law_what_a_run_expects(branch: Seq<char>, events: Seq<Event>, event: Event)
    requires
        accepted(branch, events),
    ensures
        accepted(branch, events.push(event)) <==> if events.len() == 0 {
            event is TableLoaded || event is Failed
        } else {
            match command_after(branch, events) {
                CommandView::LoadTable { .. } => event is TableLoaded || event is Failed,
                CommandView::LoadManifests { .. } => event is ManifestLoaded || event
                    is ManifestsExhausted || event is Failed,
                CommandView::NextManifest => event is ManifestLoaded || event
                    is ManifestsExhausted || event is Failed,
                CommandView::ApplyGuard { .. } => event is Applied || event is ApplyFailed,
                CommandView::ApplyRewrite { .. } => event is Applied || event is ApplyFailed,
                CommandView::Commit => event is Committed || event is Failed,
                CommandView::Finish(_) => false,
            }
        },
{
    lemma_history(branch, events);
    assert(events.push(event).drop_last() =~= events);
}

/// What a run asks for follows from the event that came and from what came
/// before it:
///
/// - the manifests of the snapshot that its branch is at, one by one;
/// - once all are read, and some entry of them is dangling, the guard for its
///   branch at that snapshot, then the rewrite that removes the dangling files
///   from its branch, then the commit;
/// - and it is over when there is no snapshot or no dangling entry, with none
///   removed; when the commit is through, with the number of files; and on the
///   first failure, with that failure.
pub proof fn law_what_a_run_asks_for(branch: Seq<char>, events: Seq<Event>, event: Event)
    requires
        accepted(branch, events.push(event)),
    ensures
        ({
            let asked = command_after(branch, events.push(event));
            let entries = scanned(events);
            let files = dangling::dangling_files(entries);
            let guarding = command_after(branch, events) is ApplyGuard;
            match event {
                Event::TableLoaded { snapshot_id: Some(snapshot_id) } => asked == (
                CommandView::LoadManifests { snapshot_id }),
                Event::TableLoaded { snapshot_id: None } => asked == CommandView::Finish(Ok(0)),
                Event::ManifestLoaded(_) => asked == CommandView::NextManifest,
                Event::ManifestsExhausted => if exists|i: int|
                    0 <= i < entries.len() && dangling::is_dangling(
                        entries,
                        #[trigger] entries[i],
                    ) {
                    &&& asked matches CommandView::ApplyGuard { branch: b, snapshot_id }
                    &&& b == branch
                    &&& events.len() > 0
                    &&& events[0] == Event::TableLoaded { snapshot_id: Some(snapshot_id) }
                } else {
                    asked == CommandView::Finish(Ok(0))
                },
                Event::Applied => {
                    &&& events.len() > 0
                    &&& guarding ==> asked == (CommandView::ApplyRewrite {
                        delete_files: files,
                        target_branch: branch,
                    })
                    &&& !guarding ==> asked == CommandView::Commit
                },
                Event::ApplyFailed { reason } => {
                    &&& events.len() > 0
                    &&& asked == CommandView::Finish(
                        Err(
                            ErrorView {
                                kind: ErrorKind::Unexpected,
                                message: if guarding {
                                    "Failed to build snapshot-guard action: "@ + reason@
                                } else {
                                    "Failed to build rewrite action: "@ + reason@
                                },
                                retryable: false,
                            },
                        ),
                    )
                },
                Event::Committed => asked == CommandView::Finish(Ok(files.len())),
                Event::Failed(e) => asked == CommandView::Finish(
                    Err(ErrorView { kind: e.kind, message: e.message@, retryable: e.retryable }),
                ),
            }
        }),
{
    let all = events.push(event);
    assert(all.drop_last() =~= events);
    lemma_history(branch, events);
    laws::lemma_some_removed(scanned(events));
}

/// A requirement is met exactly when the very branch or tag that it names points
/// at its snapshot; one without a snapshot, exactly when there is no such branch
/// or tag. One that is not met is a conflict that another attempt may get over.
pub proof fn law_requirement(requirement: TableRequirement, refs: Map<Seq<char>, i64>)
    ensures
        requirement@.is_met(refs) <==> match requirement->snapshot_id {
            Some(id) => refs.contains_key(requirement->ref_name@)
                && refs[requirement->ref_name@] == id,
            None => !refs.contains_key(requirement->ref_name@),
        },
        requirement@.conflict() == (ErrorView {
            kind: ErrorKind::CatalogCommitConflicts,
            message: transaction::REF_MOVED@ + requirement->ref_name@,
            retryable: true,
        }),
{
}

/// Where a list of requirements fails, if it does.
proof fn lemma_first_conflict(
    requirements: Seq<TableRequirementView>,
    refs: Map<Seq<char>, i64>,
)
    ensures
        match transaction::first_conflict(requirements, refs) {
            None => forall|i: int|
                0 <= i < requirements.len() ==> (#[trigger] requirements[i]).is_met(refs),
            Some(e) => exists|i: int|
                {
                    &&& 0 <= i < requirements.len()
                    &&& !(#[trigger] requirements[i]).is_met(refs)
                    &&& e == requirements[i].conflict()
                    &&& forall|k: int| 0 <= k < i ==> (#[trigger] requirements[k]).is_met(refs)
                },
        },
    decreases requirements.len(),
{
    if requirements.len() > 0 {
        let rest = requirements.drop_last();
        let last = requirements.len() - 1;
        lemma_first_conflict(rest, refs);
        match transaction::first_conflict(rest, refs) {
            Some(e) => {
                let i = choose|i: int|
                    {
                        &&& 0 <= i < rest.len()
                        &&& !(#[trigger] rest[i]).is_met(refs)
                        &&& e == rest[i].conflict()
                        &&& forall|k: int| 0 <= k < i ==> (#[trigger] rest[k]).is_met(refs)
                    };
                assert(requirements[i] == rest[i]);
                assert forall|k: int| 0 <= k < i implies (#[trigger] requirements[k]).is_met(
                    refs,
                ) by {
                    assert(rest[k] == requirements[k]);
                }
            },
            None => {
                assert forall|k: int| 0 <= k < last implies (#[trigger] requirements[k]).is_met(
                    refs,
                ) by {
                    assert(rest[k] == requirements[k]);
                }
                assert(requirements[last] == requirements.last());
            },
        }
    }
}

/// What an action alone comes to. It goes through exactly when each of its
/// requirements is met: the branch or tag that it names points at its snapshot,
/// or is not there where it has none. Where it does not go through, the first
/// requirement that is not met is the reason.
pub proof fn law_one_action(action: ActionCommit, refs: Map<Seq<char>, i64>)
    ensures
        transaction::commit_outcome(seq![action@], refs) is Ok <==> forall|i: int|
            0 <= i < action.requirements@.len() ==> match (
            #[trigger] action.requirements@[i])->snapshot_id {
                Some(id) => refs.contains_key(action.requirements@[i]->ref_name@)
                    && refs[action.requirements@[i]->ref_name@] == id,
                None => !refs.contains_key(action.requirements@[i]->ref_name@),
            },
        transaction::commit_outcome(seq![action@], refs) matches Err(e) ==> exists|i: int|
            {
                &&& 0 <= i < action.requirements@.len()
                &&& !match (#[trigger] action.requirements@[i])->snapshot_id {
                    Some(id) => refs.contains_key(action.requirements@[i]->ref_name@)
                        && refs[action.requirements@[i]->ref_name@] == id,
                    None => !refs.contains_key(action.requirements@[i]->ref_name@),
                }
                &&& e == (ErrorView {
                    kind: ErrorKind::CatalogCommitConflicts,
                    message: transaction::REF_MOVED@ + action.requirements@[i]->ref_name@,
                    retryable: true,
                })
                &&& forall|k: int|
                    0 <= k < i ==> match (#[trigger] action.requirements@[k])->snapshot_id {
                        Some(id) => refs.contains_key(action.requirements@[k]->ref_name@)
                            && refs[action.requirements@[k]->ref_name@] == id,
                        None => !refs.contains_key(action.requirements@[k]->ref_name@),
                    }
            },
{
    lemma_single(action@, refs);
    let listed = action@.requirements;
    lemma_first_conflict(listed, refs);
    assert forall|i: int| 0 <= i < action.requirements@.len() implies (
    #[trigger] action.requirements@[i])@ == listed[i] && (listed[i].is_met(refs)
        <==> match action.requirements@[i]->snapshot_id {
        Some(id) => refs.contains_key(action.requirements@[i]->ref_name@)
            && refs[action.requirements@[i]->ref_name@] == id,
        None => !refs.contains_key(action.requirements@[i]->ref_name@),
    }) by {
        law_requirement(action.requirements@[i], refs);
    }
    match transaction::first_conflict(listed, refs) {
        Some(e) => {
            let i = choose|i: int|
                {
                    &&& 0 <= i < listed.len()
                    &&& !(#[trigger] listed[i]).is_met(refs)
                    &&& e == listed[i].conflict()
                    &&& forall|k: int| 0 <= k < i ==> (#[trigger] listed[k]).is_met(refs)
                };
            law_requirement(action.requirements@[i], refs);
            assert(action.requirements@[i]@ == listed[i]);
            assert forall|k: int| 0 <= k < i implies match (
            #[trigger] action.requirements@[k])->snapshot_id {
                Some(id) => refs.contains_key(action.requirements@[k]->ref_name@)
                    && refs[action.requirements@[k]->ref_name@] == id,
                None => !refs.contains_key(action.requirements@[k]->ref_name@),
            } by {
                assert(listed[k].is_met(refs));
            }
        },
        None => {
            assert forall|i: int| 0 <= i < action.requirements@.len() implies match (
            #[trigger] action.requirements@[i])->snapshot_id {
                Some(id) => refs.contains_key(action.requirements@[i]->ref_name@)
                    && refs[action.requirements@[i]->ref_name@] == id,
                None => !refs.contains_key(action.requirements@[i]->ref_name@),
            } by {
                assert(listed[i].is_met(refs));
            }
        },
    }
}

/// A commit of one action is the commit of that action.
proof fn lemma_single(action: ActionCommitView, refs: Map<Seq<char>, i64>)
    ensures
        transaction::commit_outcome(seq![action], refs) == action.outcome(refs),
{
    let one = seq![action];
    assert(one.drop_last() =~= Seq::empty());
    assert(transaction::commit_outcome(one.drop_last(), refs) == Ok::<
        Map<Seq<char>, i64>,
        ErrorView,
    >(refs));
}

/// The refs after a list of updates, one by one.
proof fn lemma_all_applied(action: ActionCommit, n: int, refs: Map<Seq<char>, i64>, name: Seq<char>)
    requires
        0 <= n <= action.updates@.len(),
    ensures
        ({
            let moved = transaction::all_applied(action@.updates.take(n), refs);
            &&& (forall|k: int|
                0 <= k < n ==> (#[trigger] action.updates@[k])->ref_name@ != name) ==> (
            moved.contains_key(name) <==> refs.contains_key(name)) && moved[name] == refs[name]
            &&& forall|k: int|
                0 <= k < n && (#[trigger] action.updates@[k])->ref_name@ == name && (forall|l: int|
                    k < l < n ==> (#[trigger] action.updates@[l])->ref_name@ != name)
                    ==> moved.contains_key(name) && moved[name] == action.updates@[k]->snapshot_id
        }),
    decreases n,
{
    let updates = action@.updates;
    if n > 0 {
        lemma_all_applied(action, n - 1, refs, name);
        assert(updates.take(n).drop_last() =~= updates.take(n - 1));
        assert(updates.take(n).last() == action.updates@[n - 1]@);
    }
}

/// An action that goes through points each branch or tag that it updates at the
/// snapshot of its last update, and leaves every other where it is.
pub proof fn law_updates_of_an_action(
    action: ActionCommit,
    refs: Map<Seq<char>, i64>,
    moved: Map<Seq<char>, i64>,
    name: Seq<char>,
)
    requires
        transaction::commit_outcome(seq![action@], refs) == Ok::<
            Map<Seq<char>, i64>,
            ErrorView,
        >(moved),
    ensures
        (forall|k: int|
            0 <= k < action.updates@.len() ==> (#[trigger] action.updates@[k])->ref_name@ != name)
            ==> (moved.contains_key(name) <==> refs.contains_key(name)) && moved[name]
            == refs[name],
        forall|k: int|
            0 <= k < action.updates@.len() && (#[trigger] action.updates@[k])->ref_name@ == name
                && (forall|l: int|
                k < l < action.updates@.len() ==> (#[trigger] action.updates@[l])->ref_name@
                    != name) ==> moved.contains_key(name) && moved[name]
                == action.updates@[k]->snapshot_id,
{
    lemma_single(action@, refs);
    let n = action.updates@.len() as int;
    assert(action@.updates.take(n) =~= action@.updates);
    lemma_all_applied(action, n, refs, name);
}

/// Actions are committed in turn: a commit of some and then others comes to the
/// others committed to what the first leave, and fails as the first do where
/// they fail. A commit of none leaves the refs as they are.
pub proof fn law_actions_commit_in_turn(
    first: Seq<ActionCommitView>,
    others: Seq<ActionCommitView>,
    refs: Map<Seq<char>, i64>,
)
    ensures
        transaction::commit_outcome(first + others, refs) == match transaction::commit_outcome(
            first,
            refs,
        ) {
            Ok(moved) => transaction::commit_outcome(others, moved),
            Err(e) => Err(e),
        },
        transaction::commit_outcome(Seq::empty(), refs) == Ok::<
            Map<Seq<char>, i64>,
            ErrorView,
        >(refs),
{
    lemma_commit_concat(first, others, refs);
}

/// A transaction stands for its actions in order, and an action for its updates
/// and requirements in order.
pub proof fn law_transaction_view(transaction: Transaction, action: ActionCommit)
    ensures
        transaction@.len() == transaction.actions@.len(),
        forall|i: int|
            0 <= i < transaction.actions@.len() ==> #[trigger] transaction@[i]
                == transaction.actions@[i]@,
        action@.updates.len() == action.updates@.len(),
        forall|i: int|
            0 <= i < action.updates@.len() ==> #[trigger] action@.updates[i]
                == (TableUpdateView::SetSnapshotRef {
                ref_name: action.updates@[i]->ref_name@,
                snapshot_id: action.updates@[i]->snapshot_id,
            }),
        action@.requirements.len() == action.requirements@.len(),
        forall|i: int|
            0 <= i < action.requirements@.len() ==> #[trigger] action@.requirements[i]
                == (TableRequirementView::RefSnapshotIdMatch {
                ref_name: action.requirements@[i]->ref_name@,
                snapshot_id: action.requirements@[i]->snapshot_id,
            }),
{
}

/// An executed commit agrees with an outcome exactly when both go through, to
/// the same refs, or both fail, with the same failure.
pub proof fn law_agreement(
    r: Result<TableRefs, Error>,
    outcome: Result<Map<Seq<char>, i64>, ErrorView>,
)
    ensures
        transaction::agrees(r, outcome) <==> match r {
            Ok(refs) => refs.wf() && outcome == Ok::<Map<Seq<char>, i64>, ErrorView>(refs@),
            Err(e) => outcome == Err::<Map<Seq<char>, i64>, ErrorView>(
                ErrorView { kind: e.kind, message: e.message@, retryable: e.retryable },
            ),
        },
{
}

/// The guard of a scan asks for one thing, that its branch is at the scanned
/// snapshot, and changes nothing.
pub proof fn law_guard_contributes_one_requirement(branch: Seq<char>, snapshot_id: i64)
    ensures
        transaction::guard_commit(branch, snapshot_id).updates.len() == 0,
        transaction::guard_commit(branch, snapshot_id).requirements == seq![
            TableRequirementView::RefSnapshotIdMatch {
                ref_name: branch,
                snapshot_id: Some(snapshot_id),
            },
        ],
{
}

} // verus!
