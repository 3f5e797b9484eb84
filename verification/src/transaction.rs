//! What a commit asks of a table, and what it changes.

use crate::error::{Error, ErrorKind, ErrorView};
use crate::index::KeyIndex;
use crate::manifest::DataFile;
use vstd::prelude::*;

verus! {

/// The snapshots that the branches and tags of a table point at.
pub type TableRefs = KeyIndex<String, i64>;

/// A condition that a table has to meet for a commit to go through.
#[derive(Debug, PartialEq, Eq)]
pub enum TableRequirement {
    /// The branch or tag points at this snapshot; with `None`, it does not exist.
    RefSnapshotIdMatch { ref_name: String, snapshot_id: Option<i64> },
}

/// What a [`TableRequirement`] stands for.
pub enum TableRequirementView {
    RefSnapshotIdMatch { ref_name: Seq<char>, snapshot_id: Option<i64> },
}

impl View for TableRequirement {
    type V = TableRequirementView;

    open spec fn view(&self) -> TableRequirementView {
        match *self {
            TableRequirement::RefSnapshotIdMatch { ref_name, snapshot_id } =>
                TableRequirementView::RefSnapshotIdMatch { ref_name: ref_name@, snapshot_id },
        }
    }
}

/// The snapshot that a branch or tag points at, if it exists.
pub open spec fn snapshot_of(refs: Map<Seq<char>, i64>, ref_name: Seq<char>) -> Option<i64> {
    if refs.contains_key(ref_name) {
        Some(refs[ref_name])
    } else {
        None
    }
}

impl TableRequirementView {
    /// The table meets the requirement.
    pub open spec fn is_met(self, refs: Map<Seq<char>, i64>) -> bool {
        match self {
            TableRequirementView::RefSnapshotIdMatch { ref_name, snapshot_id } => snapshot_of(
                refs,
                ref_name,
            ) == snapshot_id,
        }
    }
}

/// How the message of an unmet requirement begins; the name of the branch or
/// tag follows.
pub const REF_MOVED: &'static str = "Requirement failed: not at the expected snapshot: ";

impl TableRequirementView {
    /// The failure of a commit whose requirement the table does not meet: the
    /// table has moved on, and another attempt may succeed.
    pub open spec fn conflict(self) -> ErrorView {
        match self {
            TableRequirementView::RefSnapshotIdMatch { ref_name, .. } => ErrorView {
                kind: ErrorKind::CatalogCommitConflicts,
                message: REF_MOVED@ + ref_name,
                retryable: true,
            },
        }
    }
}

impl TableRequirement {
    /// Holds the requirement against the refs of the table.
    pub fn check(&self, refs: &TableRefs) -> (r: Result<(), Error>)
        requires
            refs.wf(),
        ensures
            r is Ok <==> self@.is_met(refs@),
            r is Ok <==> match self->snapshot_id {
                Some(id) => refs@.contains_key(self->ref_name@) && refs@[self->ref_name@] == id,
                None => !refs@.contains_key(self->ref_name@),
            },
            r matches Err(e) ==> e@ == self@.conflict(),
            r matches Err(e) ==> {
                &&& e.kind == ErrorKind::CatalogCommitConflicts
                &&& e.message@ == REF_MOVED@ + self->ref_name@
                &&& e.retryable
            },
    {
        match self {
            TableRequirement::RefSnapshotIdMatch { ref_name, snapshot_id } => {
                if refs.get(ref_name) == *snapshot_id {
                    Ok(())
                } else {
                    let message = REF_MOVED.to_string().concat(ref_name.as_str());
                    Err(Error::new(ErrorKind::CatalogCommitConflicts, message).with_retryable(true))
                }
            },
        }
    }
}

/// A change to a table.
#[derive(Debug, PartialEq, Eq)]
pub enum TableUpdate {
    /// Points a branch or tag at a snapshot.
    SetSnapshotRef { ref_name: String, snapshot_id: i64 },
}

/// What a [`TableUpdate`] stands for.
pub enum TableUpdateView {
    SetSnapshotRef { ref_name: Seq<char>, snapshot_id: i64 },
}

impl View for TableUpdate {
    type V = TableUpdateView;

    open spec fn view(&self) -> TableUpdateView {
        match *self {
            TableUpdate::SetSnapshotRef { ref_name, snapshot_id } =>
                TableUpdateView::SetSnapshotRef { ref_name: ref_name@, snapshot_id },
        }
    }
}

impl TableUpdateView {
    /// The refs after the change.
    pub open spec fn applied(self, refs: Map<Seq<char>, i64>) -> Map<Seq<char>, i64> {
        match self {
            TableUpdateView::SetSnapshotRef { ref_name, snapshot_id } => refs.insert(
                ref_name,
                snapshot_id,
            ),
        }
    }
}

/// What one action contributes to a commit.
#[derive(Debug, PartialEq, Eq)]
pub struct ActionCommit {
    pub updates: Vec<TableUpdate>,
    pub requirements: Vec<TableRequirement>,
}

/// What an [`ActionCommit`] stands for.
#[verifier::ext_equal]
pub struct ActionCommitView {
    pub updates: Seq<TableUpdateView>,
    pub requirements: Seq<TableRequirementView>,
}

impl View for ActionCommit {
    type V = ActionCommitView;

    open spec fn view(&self) -> ActionCommitView {
        ActionCommitView {
            updates: self.updates@.map_values(|u: TableUpdate| u@),
            requirements: self.requirements@.map_values(|q: TableRequirement| q@),
        }
    }
}

/// The failure of the first requirement that the table does not meet.
pub open spec fn first_conflict(
    requirements: Seq<TableRequirementView>,
    refs: Map<Seq<char>, i64>,
) -> Option<ErrorView>
    decreases requirements.len(),
{
    if requirements.len() == 0 {
        None
    } else {
        match first_conflict(requirements.drop_last(), refs) {
            Some(e) => Some(e),
            None => if requirements.last().is_met(refs) {
                None
            } else {
                Some(requirements.last().conflict())
            },
        }
    }
}

/// The refs after a list of changes.
pub open spec fn all_applied(
    updates: Seq<TableUpdateView>,
    refs: Map<Seq<char>, i64>,
) -> Map<Seq<char>, i64>
    decreases updates.len(),
{
    if updates.len() == 0 {
        refs
    } else {
        updates.last().applied(all_applied(updates.drop_last(), refs))
    }
}

impl ActionCommitView {
    /// What becomes of the refs when the action is committed: its requirements
    /// are held against them, and then its updates change them.
    pub open spec fn outcome(self, refs: Map<Seq<char>, i64>) -> Result<
        Map<Seq<char>, i64>,
        ErrorView,
    > {
        match first_conflict(self.requirements, refs) {
            Some(e) => Err(e),
            None => Ok(all_applied(self.updates, refs)),
        }
    }
}

/// What becomes of the refs when the actions are committed together: each one is
/// held against the refs that the ones before it leave.
pub open spec fn commit_outcome(
    actions: Seq<ActionCommitView>,
    refs: Map<Seq<char>, i64>,
) -> Result<Map<Seq<char>, i64>, ErrorView>
    decreases actions.len(),
{
    if actions.len() == 0 {
        Ok(refs)
    } else {
        match commit_outcome(actions.drop_last(), refs) {
            Err(e) => Err(e),
            Ok(moved) => actions.last().outcome(moved),
        }
    }
}

/// The executed outcome of a commit is the one given.
pub open spec fn agrees(
    r: Result<TableRefs, Error>,
    outcome: Result<Map<Seq<char>, i64>, ErrorView>,
) -> bool {
    match (r, outcome) {
        (Ok(refs), Ok(expected)) => refs.wf() && refs@ == expected,
        (Err(e), Err(expected)) => e@ == expected,
        _ => false,
    }
}

impl ActionCommit {
    /// The contribution of the given updates and requirements.
    pub fn new(updates: Vec<TableUpdate>, requirements: Vec<TableRequirement>) -> (r: Self)
        ensures
            r.updates == updates,
            r.requirements == requirements,
    {
        ActionCommit { updates, requirements }
    }

    /// Commits the action alone.
    pub fn commit(&self, refs: TableRefs) -> (r: Result<TableRefs, Error>)
        requires
            refs.wf(),
        ensures
            agrees(r, self@.outcome(refs@)),
    {
        let ghost requirements = self@.requirements;
        let ghost updates = self@.updates;
        let ghost start = refs@;
        let mut moved = refs;
        let mut i: usize = 0;
        while i < self.requirements.len()
            invariant
                i <= self.requirements.len(),
                moved.wf(),
                moved@ == start,
                start == refs@,
                requirements == self@.requirements,
                first_conflict(requirements.take(i as int), start) is None,
            decreases self.requirements.len() - i,
        {
            assert(requirements.take(i + 1).drop_last() =~= requirements.take(i as int));
            if let Err(e) = self.requirements[i].check(&moved) {
                proof {
                    lemma_first_conflict_prefix(requirements, i + 1, start);
                }
                return Err(e);
            }
            i = i + 1;
        }
        assert(requirements.take(i as int) =~= requirements);
        let mut j: usize = 0;
        while j < self.updates.len()
            invariant
                j <= self.updates.len(),
                moved.wf(),
                updates == self@.updates,
                moved@ == all_applied(updates.take(j as int), start),
            decreases self.updates.len() - j,
        {
            assert(updates.take(j + 1).drop_last() =~= updates.take(j as int));
            match &self.updates[j] {
                TableUpdate::SetSnapshotRef { ref_name, snapshot_id } => {
                    moved.insert(ref_name.clone(), *snapshot_id);
                },
            }
            j = j + 1;
        }
        assert(updates.take(j as int) =~= updates);
        Ok(moved)
    }
}

/// A requirement that is not met stays the first one when others follow.
proof fn lemma_first_conflict_prefix(
    requirements: Seq<TableRequirementView>,
    n: int,
    refs: Map<Seq<char>, i64>,
)
    requires
        0 <= n <= requirements.len(),
        first_conflict(requirements.take(n), refs) is Some,
    ensures
        first_conflict(requirements, refs) == first_conflict(requirements.take(n), refs),
    decreases requirements.len(),
{
    if n < requirements.len() {
        assert(requirements.drop_last().take(n) =~= requirements.take(n));
        lemma_first_conflict_prefix(requirements.drop_last(), n, refs);
    } else {
        assert(requirements.take(n) =~= requirements);
    }
}

/// A commit that fails keeps failing when further actions follow.
pub proof fn lemma_commit_prefix(
    actions: Seq<ActionCommitView>,
    n: int,
    refs: Map<Seq<char>, i64>,
)
    requires
        0 <= n <= actions.len(),
        commit_outcome(actions.take(n), refs) is Err,
    ensures
        commit_outcome(actions, refs) == commit_outcome(actions.take(n), refs),
    decreases actions.len(),
{
    if n < actions.len() {
        assert(actions.drop_last().take(n) =~= actions.take(n));
        lemma_commit_prefix(actions.drop_last(), n, refs);
    } else {
        assert(actions.take(n) =~= actions);
    }
}

/// A list of actions that are committed together.
#[derive(Debug, PartialEq, Eq)]
pub struct Transaction {
    pub actions: Vec<ActionCommit>,
}

impl View for Transaction {
    type V = Seq<ActionCommitView>;

    open spec fn view(&self) -> Seq<ActionCommitView> {
        self.actions@.map_values(|a: ActionCommit| a@)
    }
}

impl Transaction {
    /// A transaction without actions.
    pub fn new() -> (r: Self)
        ensures
            r@ == Seq::<ActionCommitView>::empty(),
    {
        let r = Transaction { actions: Vec::new() };
        assert(r@ =~= Seq::empty());
        r
    }

    /// Adds an action behind the others.
    pub fn apply(&mut self, action: ActionCommit)
        ensures
            final(self)@ == old(self)@.push(action@),
    {
        self.actions.push(action);
        assert(self@ =~= old(self)@.push(action@));
    }

    /// Commits the actions to a table with the given refs.
    pub fn commit(&self, refs: TableRefs) -> (r: Result<TableRefs, Error>)
        requires
            refs.wf(),
        ensures
            agrees(r, commit_outcome(self@, refs@)),
    {
        let ghost start = refs@;
        let mut moved = refs;
        let mut i: usize = 0;
        while i < self.actions.len()
            invariant
                i <= self.actions.len(),
                moved.wf(),
                start == refs@,
                commit_outcome(self@.take(i as int), start) == Ok::<
                    Map<Seq<char>, i64>,
                    ErrorView,
                >(moved@),
            decreases self.actions.len() - i,
        {
            assert(self@.take(i + 1).drop_last() =~= self@.take(i as int));
            match self.actions[i].commit(moved) {
                Ok(next) => {
                    moved = next;
                },
                Err(e) => {
                    proof {
                        lemma_commit_prefix(self@, i + 1, start);
                    }
                    return Err(e);
                },
            }
            i = i + 1;
        }
        assert(self@.take(i as int) =~= self@);
        Ok(moved)
    }
}

/// An action that changes nothing and only requires that `branch` still points
/// at `snapshot_id`.
///
/// It comes first in its transaction: what an action requires is held against
/// the refs that the actions before it leave, and a rewrite moves the branch.
#[derive(Debug, PartialEq, Eq)]
pub struct RequireScannedSnapshotAction {
    pub branch: String,
    pub snapshot_id: i64,
}

/// What a [`RequireScannedSnapshotAction`] contributes to a commit.
pub open spec fn guard_commit(branch: Seq<char>, snapshot_id: i64) -> ActionCommitView {
    ActionCommitView {
        updates: Seq::empty(),
        requirements: seq![
            TableRequirementView::RefSnapshotIdMatch {
                ref_name: branch,
                snapshot_id: Some(snapshot_id),
            },
        ],
    }
}

impl RequireScannedSnapshotAction {
    /// No updates, and the one requirement.
    pub fn commit(&self) -> (r: Result<ActionCommit, Error>)
        ensures
            r matches Ok(commit) && commit@ == guard_commit(self.branch@, self.snapshot_id),
            r matches Ok(commit) && {
                &&& commit.updates@.len() == 0
                &&& commit.requirements@.len() == 1
                &&& commit.requirements@[0]->ref_name@ == self.branch@
                &&& commit.requirements@[0]->snapshot_id == Some(self.snapshot_id)
            },
    {
        let mut requirements: Vec<TableRequirement> = Vec::new();
        requirements.push(
            TableRequirement::RefSnapshotIdMatch {
                ref_name: self.branch.clone(),
                snapshot_id: Some(self.snapshot_id),
            },
        );
        let commit = ActionCommit::new(Vec::new(), requirements);
        assert(commit@ =~= guard_commit(self.branch@, self.snapshot_id));
        Ok(commit)
    }
}

/// An action that removes files from a branch.
#[derive(Debug, PartialEq, Eq)]
pub struct RewriteFilesAction {
    pub delete_files: Vec<DataFile>,
    pub target_branch: String,
}

} // verus!
