//! The operation orchestrators: given the tree values that the I/O layer
//! read, they make every decision of a deploy, rollback or standalone backup
//! — validation order, fail-fast rules, snapshot capture, and the exact
//! transfer steps — and hand back what the I/O layer must perform.
use vstd::prelude::*;
use crate::transfer::{extend_plan, full_plan, path_view, plan_view, tree_plan, Step, StepV};
use crate::tree::{file_count, view_of, Node};

verus! {

/// Which local path requirement a failed operation found violated.
#[derive(Debug, PartialEq, Eq, Structural)]
pub enum PathFault {
    /// The local source path does not exist.
    MissingSource,
    /// The local source tree holds no files.
    EmptySource,
    /// The version marker file is missing from the local tree.
    MissingMarker,
}

/// Why an operation failed. Each variant is fatal for the whole operation;
/// only the TCP phase behind `Connection` is ever retried, and its error is
/// surfaced after the last attempt.
#[derive(Debug, PartialEq, Eq, Structural)]
pub enum OpError {
    /// TCP connect failed on every attempt.
    Connection { attempts: u64 },
    /// Protocol handshake or credential rejection; never retried.
    Auth,
    /// Directory creation, listing, open, read or write failed mid-transfer.
    Transfer,
    /// A local path requirement was violated; detected before network
    /// transfer.
    Path { fault: PathFault },
    /// Rollback was requested but no backup snapshot exists for the project
    /// and environment.
    BackupMissing,
}

/// Validates the local source tree before any network transfer: the path must
/// exist (`Some`) and the tree must hold at least one file. Returns the file
/// count that the upload will use as its progress denominator.
pub fn validate_source(local: Option<&Vec<Node>>) -> (r: Result<u64, OpError>)
    requires
        local matches Some(t) ==> file_count(view_of(t@)) <= u64::MAX,
    ensures
        local is None ==> r == Result::<u64, OpError>::Err(
            OpError::Path { fault: PathFault::MissingSource },
        ),
        local matches Some(t) ==> r == (if file_count(view_of(t@)) == 0 {
            Result::<u64, OpError>::Err(OpError::Path { fault: PathFault::EmptySource })
        } else {
            Result::<u64, OpError>::Ok(file_count(view_of(t@)) as u64)
        }),
{
    match local {
        None => Err(OpError::Path { fault: PathFault::MissingSource }),
        Some(tree) => {
            match crate::tree::count_files(tree) {
                Some(total) => {
                    if total == 0 {
                        Err(OpError::Path { fault: PathFault::EmptySource })
                    } else {
                        Ok(total)
                    }
                },
                None => {
                    proof {
                        assert(false);
                    }
                    Err(OpError::Path { fault: PathFault::EmptySource })
                },
            }
        },
    }
}

/// Captures the backup snapshot before a deploy overwrites the remote tree: a
/// present remote tree replaces the prior snapshot wholesale — the store
/// keeps exactly one generation — while an absent remote tree is a no-op
/// that keeps the prior snapshot, so that a first deploy to a fresh remote
/// path does not fail on the backup step.
pub fn capture_snapshot(remote: Option<Vec<Node>>, prior: Option<Vec<Node>>) -> (r: Option<
    Vec<Node>,
>)
    ensures
        remote is Some ==> r == remote,
        remote is None ==> r == prior,
{
    match remote {
        Some(tree) => Some(tree),
        None => prior,
    }
}

/// The full transfer plan for uploading `nodes` as a whole operation: the
/// transfer root is created first, then the tree is mirrored depth first,
/// files numbered from 1.
pub fn upload_plan(nodes: &Vec<Node>) -> (steps: Vec<Step>)
    requires
        file_count(view_of(nodes@)) <= u64::MAX,
    ensures
        plan_view(steps@) == full_plan(view_of(nodes@)),
{
    let mut steps: Vec<Step> = Vec::new();
    let root: Vec<String> = Vec::new();
    steps.push(Step::MkDir { path: root });
    proof {
        assert(path_view(Seq::<String>::empty()) =~= Seq::<Seq<char>>::empty());
        assert(plan_view(steps@) =~= seq![StepV::MkDir { path: Seq::empty() }]);
    }
    let base: Vec<String> = Vec::new();
    let _ = extend_plan(nodes, &base, 0, &mut steps);
    steps
}

/// The plan that writes a captured snapshot into its location: the prior
/// contents are removed first — the store keeps at most one generation,
/// replaced wholesale — then the location is recreated and the snapshot's
/// tree is laid down exactly.
pub fn store_snapshot_plan(snapshot: &Vec<Node>) -> (steps: Vec<Step>)
    requires
        file_count(view_of(snapshot@)) <= u64::MAX,
    ensures
        plan_view(steps@) == seq![
            StepV::ClearDir { path: Seq::empty() },
            StepV::MkDir { path: Seq::empty() },
        ] + tree_plan(view_of(snapshot@), Seq::empty(), 0),
{
    let mut steps: Vec<Step> = Vec::new();
    let clear_root: Vec<String> = Vec::new();
    steps.push(Step::ClearDir { path: clear_root });
    let root: Vec<String> = Vec::new();
    steps.push(Step::MkDir { path: root });
    proof {
        assert(path_view(Seq::<String>::empty()) =~= Seq::<Seq<char>>::empty());
        assert(plan_view(steps@) =~= seq![
            StepV::ClearDir { path: Seq::empty() },
            StepV::MkDir { path: Seq::empty() },
        ]);
    }
    let base: Vec<String> = Vec::new();
    let _ = extend_plan(snapshot, &base, 0, &mut steps);
    proof {
        assert(plan_view(steps@) =~= seq![
            StepV::ClearDir { path: Seq::empty() },
            StepV::MkDir { path: Seq::empty() },
        ] + tree_plan(view_of(snapshot@), Seq::empty(), 0));
    }
    steps
}

/// What a deploy performs once it is allowed to proceed: the snapshot to
/// store before anything is overwritten, the upload steps, and the progress
/// denominator.
pub struct DeployOutcome {
    pub backup: Option<Vec<Node>>,
    pub total: u64,
    pub steps: Vec<Step>,
}

/// Sequences one deploy, given what the I/O layer found: the local source
/// tree (`None` when the path does not exist), the remote tree as read for
/// the pre-deploy backup (`None` when absent), and the prior snapshot. The
/// source is validated before anything else, so a missing or empty source
/// aborts the operation before any transfer; otherwise the outcome carries
/// the captured snapshot — to be stored before the upload begins — and the
/// steps that mirror the source onto the remote root.
pub fn deploy(local: Option<&Vec<Node>>, remote: Option<Vec<Node>>, prior: Option<Vec<Node>>) -> (r:
    Result<DeployOutcome, OpError>)
    requires
        local matches Some(t) ==> file_count(view_of(t@)) <= u64::MAX,
    ensures
        local is None ==> r == Result::<DeployOutcome, OpError>::Err(
            OpError::Path { fault: PathFault::MissingSource },
        ),
        local matches Some(t) && file_count(view_of(t@)) == 0 ==> r
            == Result::<DeployOutcome, OpError>::Err(
            OpError::Path { fault: PathFault::EmptySource },
        ),
        r is Ok <==> (local matches Some(t) && file_count(view_of(t@)) > 0),
        r matches Ok(o) ==> (local matches Some(t) && {
            &&& o.total == file_count(view_of(t@))
            &&& (remote is Some ==> o.backup == remote)
            &&& (remote is None ==> o.backup == prior)
            &&& plan_view(o.steps@) == full_plan(view_of(t@))
        }),
{
    let total = match validate_source(local) {
        Ok(total) => total,
        Err(e) => {
            return Err(e);
        },
    };
    let tree = match local {
        Some(tree) => tree,
        None => {
            proof {
                assert(false);
            }
            return Err(OpError::Path { fault: PathFault::MissingSource });
        },
    };
    let backup = capture_snapshot(remote, prior);
    let steps = upload_plan(tree);
    Ok(DeployOutcome { backup, total, steps })
}

/// What a rollback performs once it is allowed to proceed: the version marker
/// bytes to send first, then the steps that mirror the snapshot onto the
/// remote root, and the progress denominator.
pub struct RollbackOutcome {
    pub marker: Vec<u8>,
    pub total: u64,
    pub steps: Vec<Step>,
}

/// Sequences one rollback, given what the I/O layer found: the bytes of the
/// local version marker file (`None` when it is missing) and the backup
/// snapshot (`None` when no backup exists for the project and environment).
/// A missing snapshot aborts the operation before anything is read or sent,
/// and a snapshot with no files is rejected — no upload proceeds without at
/// least one file. Otherwise the marker goes first, independent of the bulk
/// transfer, and the snapshot tree is mirrored onto the remote root,
/// overwriting it with the last known good state.
pub fn rollback(marker: Option<Vec<u8>>, backup: Option<Vec<Node>>) -> (r: Result<
    RollbackOutcome,
    OpError,
>)
    requires
        backup matches Some(t) ==> file_count(view_of(t@)) <= u64::MAX,
    ensures
        backup is None ==> r == Result::<RollbackOutcome, OpError>::Err(OpError::BackupMissing),
        backup is Some && marker is None ==> r == Result::<RollbackOutcome, OpError>::Err(
            OpError::Path { fault: PathFault::MissingMarker },
        ),
        backup matches Some(t) && marker is Some && file_count(view_of(t@)) == 0 ==> r
            == Result::<RollbackOutcome, OpError>::Err(
            OpError::Path { fault: PathFault::EmptySource },
        ),
        r is Ok <==> (backup matches Some(t) && marker is Some && file_count(view_of(t@)) > 0),
        r matches Ok(o) ==> (marker matches Some(m) && backup matches Some(t) && {
            &&& o.marker == m
            &&& o.total == file_count(view_of(t@))
            &&& plan_view(o.steps@) == full_plan(view_of(t@))
        }),
{
    let snapshot = match backup {
        Some(snapshot) => snapshot,
        None => {
            return Err(OpError::BackupMissing);
        },
    };
    let marker = match marker {
        Some(marker) => marker,
        None => {
            return Err(OpError::Path { fault: PathFault::MissingMarker });
        },
    };
    let total = match crate::tree::count_files(&snapshot) {
        Some(total) => total,
        None => {
            proof {
                assert(false);
            }
            return Err(OpError::Transfer);
        },
    };
    if total == 0 {
        return Err(OpError::Path { fault: PathFault::EmptySource });
    }
    let steps = upload_plan(&snapshot);
    Ok(RollbackOutcome { marker, total, steps })
}

} // verus!
