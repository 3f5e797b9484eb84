//! The action that removes dangling delete files, step by step.

use crate::dangling;
use crate::error::{Error, ErrorKind, ErrorView};
use crate::manifest::{DataFile, Manifest, ManifestEntry};
use crate::scan::SnapshotScan;
use crate::transaction::{RequireScannedSnapshotAction, RewriteFilesAction};
use vstd::prelude::*;

verus! {

/// The branch that a table is read from and written to unless another is named.
pub const MAIN_BRANCH: &'static str = "main";

/// How the message begins where the guard could not be added to the
/// transaction; the reason follows.
pub const GUARD_NOT_BUILT: &'static str = "Failed to build snapshot-guard action: ";

/// How the message begins where the rewrite could not be added to the
/// transaction; the reason follows.
pub const REWRITE_NOT_BUILT: &'static str = "Failed to build rewrite action: ";

/// The name of a table.
#[derive(Clone, Debug, PartialEq, Eq)]
pub struct TableIdent {
    pub namespace: Vec<String>,
    pub name: String,
}

/// Removes dangling delete files from a table.
///
/// - A position delete or deletion vector goes when the data file that it refers
///   to is no longer in the snapshot. Where it refers to no single data file, it
///   goes when its sequence number is less than that of every data file in its
///   partition.
/// - An equality delete goes when its sequence number is at most that of every
///   data file in its partition, or in the table where it has no partition
///   values.
///
/// `C` is the catalog that the table is in. The action only carries it.
pub struct RemoveDanglingDeleteFilesAction<C> {
    catalog: C,
    table_ident: TableIdent,
    to_branch: String,
}

impl<C> RemoveDanglingDeleteFilesAction<C> {
    /// The catalog that the table is in.
    pub closed spec fn catalog(self) -> C {
        self.catalog
    }

    /// The table to clean.
    pub closed spec fn table_ident(self) -> TableIdent {
        self.table_ident
    }

    /// The branch to clean.
    pub closed spec fn branch(self) -> Seq<char> {
        self.to_branch@
    }

    /// An action on the main branch of the table.
    pub fn new(catalog: C, table_ident: TableIdent) -> (r: Self)
        ensures
            r.catalog() == catalog,
            r.table_ident() == table_ident,
            r.branch() == MAIN_BRANCH@,
    {
        RemoveDanglingDeleteFilesAction { catalog, table_ident, to_branch: MAIN_BRANCH.to_string() }
    }

    /// Sets the branch to clean.
    pub fn to_branch(self, branch: String) -> (r: Self)
        ensures
            r.catalog() == self.catalog(),
            r.table_ident() == self.table_ident(),
            r.branch() == branch@,
    {
        RemoveDanglingDeleteFilesAction {
            catalog: self.catalog,
            table_ident: self.table_ident,
            to_branch: branch,
        }
    }

    /// Starts the action: hands the catalog back, with the run and the first
    /// thing to do.
    pub fn execute(self) -> (r: (C, Execution, Command))
        ensures
            r.0 == self.catalog(),
            r.1.wf(),
            r.1@ == (ExecutionView::LoadingTable { branch: self.branch() }),
            r.2@ == (CommandView::LoadTable {
                table_ident: self.table_ident(),
                branch: self.branch(),
            }),
    {
        let branch: String = self.to_branch.clone();
        (
            self.catalog,
            Execution { phase: Phase::LoadingTable { branch } },
            Command::LoadTable { table_ident: self.table_ident, branch: self.to_branch },
        )
    }
}

/// What a run asks for next.
#[derive(Debug, PartialEq, Eq)]
pub enum Command {
    /// Load the table and look up the snapshot of the branch.
    LoadTable { table_ident: TableIdent, branch: String },
    /// Load the manifests of the snapshot, and hand them over one by one in any
    /// order.
    LoadManifests { snapshot_id: i64 },
    /// Hand over the next manifest, or say that there are no more.
    NextManifest,
    /// Add the guard to a new transaction on the loaded table.
    ApplyGuard(RequireScannedSnapshotAction),
    /// Add the rewrite to the transaction, behind the guard.
    ApplyRewrite(RewriteFilesAction),
    /// Commit the transaction.
    Commit,
    /// Nothing: the run is over. It removed this number of files.
    Finish(Result<usize, Error>),
}

/// What a [`Command`] stands for.
pub enum CommandView {
    LoadTable { table_ident: TableIdent, branch: Seq<char> },
    LoadManifests { snapshot_id: i64 },
    NextManifest,
    ApplyGuard { branch: Seq<char>, snapshot_id: i64 },
    ApplyRewrite { delete_files: Seq<DataFile>, target_branch: Seq<char> },
    Commit,
    Finish(Result<nat, ErrorView>),
}

impl View for Command {
    type V = CommandView;

    open spec fn view(&self) -> CommandView {
        match *self {
            Command::LoadTable { table_ident, branch } => CommandView::LoadTable {
                table_ident,
                branch: branch@,
            },
            Command::LoadManifests { snapshot_id } => CommandView::LoadManifests { snapshot_id },
            Command::NextManifest => CommandView::NextManifest,
            Command::ApplyGuard(guard) => CommandView::ApplyGuard {
                branch: guard.branch@,
                snapshot_id: guard.snapshot_id,
            },
            Command::ApplyRewrite(rewrite) => CommandView::ApplyRewrite {
                delete_files: rewrite.delete_files@,
                target_branch: rewrite.target_branch@,
            },
            Command::Commit => CommandView::Commit,
            Command::Finish(Ok(count)) => CommandView::Finish(Ok(count as nat)),
            Command::Finish(Err(e)) => CommandView::Finish(Err(e@)),
        }
    }
}

/// What came of a command.
#[derive(Debug, PartialEq, Eq)]
pub enum Event {
    /// The table is loaded; the branch points at this snapshot, if it exists.
    TableLoaded { snapshot_id: Option<i64> },
    /// Here is one manifest of the snapshot.
    ManifestLoaded(Manifest),
    /// There are no more manifests.
    ManifestsExhausted,
    /// The action is part of the transaction.
    Applied,
    /// The action could not be added to the transaction.
    ApplyFailed { reason: String },
    /// The transaction is committed.
    Committed,
    /// The table or its manifests could not be loaded, or the transaction could
    /// not be committed.
    Failed(Error),
}

/// How far a run has come.
enum Phase {
    LoadingTable { branch: String },
    Scanning { branch: String, snapshot_id: i64, scan: SnapshotScan },
    ApplyingGuard { branch: String, delete_files: Vec<DataFile> },
    ApplyingRewrite { count: usize },
    Committing { count: usize },
    Finished,
}

/// A run of the action.
pub struct Execution {
    phase: Phase,
}

/// What an [`Execution`] stands for.
pub enum ExecutionView {
    /// The table is being loaded.
    LoadingTable { branch: Seq<char> },
    /// The manifests of the snapshot are being loaded; these entries are scanned.
    Scanning { branch: Seq<char>, snapshot_id: i64, entries: Seq<ManifestEntry> },
    /// The guard is being added to the transaction.
    ApplyingGuard { branch: Seq<char>, delete_files: Seq<DataFile> },
    /// The rewrite is being added to the transaction.
    ApplyingRewrite { count: nat },
    /// The transaction is being committed.
    Committing { count: nat },
    /// The run is over.
    Finished,
}

impl View for Execution {
    type V = ExecutionView;

    closed spec fn view(&self) -> ExecutionView {
        match self.phase {
            Phase::LoadingTable { branch } => ExecutionView::LoadingTable { branch: branch@ },
            Phase::Scanning { branch, snapshot_id, scan } => ExecutionView::Scanning {
                branch: branch@,
                snapshot_id,
                entries: scan@,
            },
            Phase::ApplyingGuard { branch, delete_files } => ExecutionView::ApplyingGuard {
                branch: branch@,
                delete_files: delete_files@,
            },
            Phase::ApplyingRewrite { count } => ExecutionView::ApplyingRewrite {
                count: count as nat,
            },
            Phase::Committing { count } => ExecutionView::Committing { count: count as nat },
            Phase::Finished => ExecutionView::Finished,
        }
    }
}

/// The failure of an action that could not be added to the transaction.
pub open spec fn not_built(what: Seq<char>, reason: Seq<char>) -> ErrorView {
    ErrorView { kind: ErrorKind::Unexpected, message: what + reason, retryable: false }
}

impl ExecutionView {
    /// The event can come of the last command.
    pub open spec fn expects(self, event: Event) -> bool {
        match self {
            ExecutionView::LoadingTable { .. } => event is TableLoaded || event is Failed,
            ExecutionView::Scanning { .. } => event is ManifestLoaded || event is ManifestsExhausted
                || event is Failed,
            ExecutionView::ApplyingGuard { .. } => event is Applied || event is ApplyFailed,
            ExecutionView::ApplyingRewrite { .. } => event is Applied || event is ApplyFailed,
            ExecutionView::Committing { .. } => event is Committed || event is Failed,
            ExecutionView::Finished => false,
        }
    }

    /// Where the run goes on an event that it expects, and what it asks for then.
    pub open spec fn next(self, event: Event) -> (ExecutionView, CommandView) {
        match (self, event) {
            (
                ExecutionView::LoadingTable { branch },
                Event::TableLoaded { snapshot_id: Some(snapshot_id) },
            ) => (
                ExecutionView::Scanning { branch, snapshot_id, entries: Seq::empty() },
                CommandView::LoadManifests { snapshot_id },
            ),
            // Without a snapshot there is nothing to remove.
            (ExecutionView::LoadingTable { .. }, Event::TableLoaded { snapshot_id: None }) => (
                ExecutionView::Finished,
                CommandView::Finish(Ok(0)),
            ),
            (
                ExecutionView::Scanning { branch, snapshot_id, entries },
                Event::ManifestLoaded(manifest),
            ) => (
                ExecutionView::Scanning {
                    branch,
                    snapshot_id,
                    entries: entries + manifest.entries@,
                },
                CommandView::NextManifest,
            ),
            (
                ExecutionView::Scanning { branch, snapshot_id, entries },
                Event::ManifestsExhausted,
            ) => {
                let delete_files = dangling::dangling_files(entries);
                if delete_files.len() == 0 {
                    (ExecutionView::Finished, CommandView::Finish(Ok(0)))
                } else {
                    (
                        ExecutionView::ApplyingGuard { branch, delete_files },
                        CommandView::ApplyGuard { branch, snapshot_id },
                    )
                }
            },
            (ExecutionView::ApplyingGuard { branch, delete_files }, Event::Applied) => (
                ExecutionView::ApplyingRewrite { count: delete_files.len() },
                CommandView::ApplyRewrite { delete_files, target_branch: branch },
            ),
            (ExecutionView::ApplyingGuard { .. }, Event::ApplyFailed { reason }) => (
                ExecutionView::Finished,
                CommandView::Finish(Err(not_built(GUARD_NOT_BUILT@, reason@))),
            ),
            (ExecutionView::ApplyingRewrite { count }, Event::Applied) => (
                ExecutionView::Committing { count },
                CommandView::Commit,
            ),
            (ExecutionView::ApplyingRewrite { .. }, Event::ApplyFailed { reason }) => (
                ExecutionView::Finished,
                CommandView::Finish(Err(not_built(REWRITE_NOT_BUILT@, reason@))),
            ),
            (ExecutionView::Committing { count }, Event::Committed) => (
                ExecutionView::Finished,
                CommandView::Finish(Ok(count)),
            ),
            // Whatever could not be loaded or committed ends the run as it is.
            (_, Event::Failed(e)) => (ExecutionView::Finished, CommandView::Finish(Err(e@))),
            _ => (ExecutionView::Finished, arbitrary()),
        }
    }
}

impl Execution {
    /// The scan, while there is one, is well formed.
    pub closed spec fn wf(self) -> bool {
        match self.phase {
            Phase::Scanning { scan, .. } => scan.wf(),
            _ => true,
        }
    }

    /// Whether the event can come of the last command.
    pub fn expects(&self, event: &Event) -> (r: bool)
        ensures
            r == self@.expects(*event),
    {
        match (&self.phase, event) {
            (Phase::LoadingTable { .. }, Event::TableLoaded { .. }) => true,
            (Phase::LoadingTable { .. }, Event::Failed(_)) => true,
            (Phase::Scanning { .. }, Event::ManifestLoaded(_)) => true,
            (Phase::Scanning { .. }, Event::ManifestsExhausted) => true,
            (Phase::Scanning { .. }, Event::Failed(_)) => true,
            (Phase::ApplyingGuard { .. }, Event::Applied) => true,
            (Phase::ApplyingGuard { .. }, Event::ApplyFailed { .. }) => true,
            (Phase::ApplyingRewrite { .. }, Event::Applied) => true,
            (Phase::ApplyingRewrite { .. }, Event::ApplyFailed { .. }) => true,
            (Phase::Committing { .. }, Event::Committed) => true,
            (Phase::Committing { .. }, Event::Failed(_)) => true,
            _ => false,
        }
    }

    /// Ends the run.
    fn finish(outcome: Result<usize, Error>) -> (r: (Self, Command))
        ensures
            r.0.wf(),
            r.0@ == ExecutionView::Finished,
            r.1 == Command::Finish(outcome),
    {
        (Execution { phase: Phase::Finished }, Command::Finish(outcome))
    }

    /// Ends the run because an action could not be added to the transaction.
    fn finish_not_built(what: &str, reason: String) -> (r: (Self, Command))
        ensures
            r.0.wf(),
            r.0@ == ExecutionView::Finished,
            r.1@ == CommandView::Finish(Err(not_built(what@, reason@))),
    {
        let message = what.to_string().concat(reason.as_str());
        Self::finish(Err(Error::new(ErrorKind::Unexpected, message)))
    }

    /// Takes what came of the last command, and gives the next one.
    pub fn step(self, event: Event) -> (r: (Self, Command))
        requires
            self.wf(),
            self@.expects(event),
        ensures
            r.0.wf(),
            (r.0@, r.1@) == self@.next(event),
    {
        match (self.phase, event) {
            (Phase::LoadingTable { branch }, Event::TableLoaded { snapshot_id }) => {
                match snapshot_id {
                    Some(snapshot_id) => (
                        Execution {
                            phase: Phase::Scanning {
                                branch,
                                snapshot_id,
                                scan: SnapshotScan::new(),
                            },
                        },
                        Command::LoadManifests { snapshot_id },
                    ),
                    None => Self::finish(Ok(0)),
                }
            },
            (Phase::Scanning { branch, snapshot_id, scan }, Event::ManifestLoaded(manifest)) => {
                let mut scan = scan;
                scan.record_manifest(manifest);
                (
                    Execution { phase: Phase::Scanning { branch, snapshot_id, scan } },
                    Command::NextManifest,
                )
            },
            (Phase::Scanning { branch, snapshot_id, scan }, Event::ManifestsExhausted) => {
                let delete_files: Vec<DataFile> = scan.into_dangling_files();
                if delete_files.is_empty() {
                    Self::finish(Ok(0))
                } else {
                    let guard = RequireScannedSnapshotAction {
                        branch: branch.clone(),
                        snapshot_id,
                    };
                    (
                        Execution { phase: Phase::ApplyingGuard { branch, delete_files } },
                        Command::ApplyGuard(guard),
                    )
                }
            },
            (Phase::ApplyingGuard { branch, delete_files }, Event::Applied) => {
                let count: usize = delete_files.len();
                (
                    Execution { phase: Phase::ApplyingRewrite { count } },
                    Command::ApplyRewrite(
                        RewriteFilesAction { delete_files, target_branch: branch },
                    ),
                )
            },
            (Phase::ApplyingGuard { .. }, Event::ApplyFailed { reason }) => {
                Self::finish_not_built(GUARD_NOT_BUILT, reason)
            },
            (Phase::ApplyingRewrite { count }, Event::Applied) => (
                Execution { phase: Phase::Committing { count } },
                Command::Commit,
            ),
            (Phase::ApplyingRewrite { .. }, Event::ApplyFailed { reason }) => {
                Self::finish_not_built(REWRITE_NOT_BUILT, reason)
            },
            (Phase::Committing { count }, Event::Committed) => Self::finish(Ok(count)),
            (_, Event::Failed(e)) => Self::finish(Err(e)),
            _ => vstd::pervasive::unreached(),
        }
    }
}

} // verus!
