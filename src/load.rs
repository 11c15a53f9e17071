//! The order of the destructive load: back up the live directory, then
//! replace it with a stored snapshot.
//!
//! The caller performs each action that `next_action` names and reports back
//! whether it succeeded; `advance` gives the next phase.
use vstd::prelude::*;

verus! {

/// Where a load stands.
#[derive(Clone, Copy, Debug, PartialEq, Eq, Structural)]
pub enum LoadPhase {
    /// Nothing done yet.
    Start,
    /// The previous backup is gone (or there was none).
    BackupCleared,
    /// The backup holds a full copy of the live directory.
    BackupTaken,
    /// The live directory has been deleted.
    LiveCleared,
    /// The snapshot has been copied into place.
    Loaded,
    /// A step before the live directory was touched failed: nothing changed.
    Aborted,
    /// A step at or after deleting the live directory failed: the backup holds
    /// the last known good state.
    Broken,
}

/// What the caller is to do next.
#[derive(Clone, Copy, Debug, PartialEq, Eq, Structural)]
pub enum LoadAction {
    /// Delete the backup directory if it exists.
    ClearBackup,
    /// Create the backup directory and copy the live directory into it.
    TakeBackup,
    /// Delete the live directory.
    ClearLive,
    /// Copy the stored snapshot into the live location.
    FillLive,
    /// The load is over.
    Stop,
}

impl LoadPhase {
    pub open spec fn spec_next_action(self) -> LoadAction {
        match self {
            LoadPhase::Start => LoadAction::ClearBackup,
            LoadPhase::BackupCleared => LoadAction::TakeBackup,
            LoadPhase::BackupTaken => LoadAction::ClearLive,
            LoadPhase::LiveCleared => LoadAction::FillLive,
            _ => LoadAction::Stop,
        }
    }

    pub open spec fn spec_advance(self, ok: bool) -> LoadPhase {
        match self {
            LoadPhase::Start => if ok { LoadPhase::BackupCleared } else { LoadPhase::Aborted },
            LoadPhase::BackupCleared => if ok { LoadPhase::BackupTaken } else { LoadPhase::Aborted },
            LoadPhase::BackupTaken => if ok { LoadPhase::LiveCleared } else { LoadPhase::Broken },
            LoadPhase::LiveCleared => if ok { LoadPhase::Loaded } else { LoadPhase::Broken },
            other => other,
        }
    }

    pub open spec fn spec_is_done(self) -> bool {
        self is Loaded || self is Aborted || self is Broken
    }

    /// The action that this phase calls for.
    pub fn next_action(self) -> (r: LoadAction)
        ensures
            r == self.spec_next_action(),
    {
        match self {
            LoadPhase::Start => LoadAction::ClearBackup,
            LoadPhase::BackupCleared => LoadAction::TakeBackup,
            LoadPhase::BackupTaken => LoadAction::ClearLive,
            LoadPhase::LiveCleared => LoadAction::FillLive,
            _ => LoadAction::Stop,
        }
    }

    /// The phase after the current action succeeded (`ok`) or failed.
    pub fn advance(self, ok: bool) -> (r: LoadPhase)
        ensures
            r == self.spec_advance(ok),
    {
        match self {
            LoadPhase::Start => if ok { LoadPhase::BackupCleared } else { LoadPhase::Aborted },
            LoadPhase::BackupCleared => if ok { LoadPhase::BackupTaken } else { LoadPhase::Aborted },
            LoadPhase::BackupTaken => if ok { LoadPhase::LiveCleared } else { LoadPhase::Broken },
            LoadPhase::LiveCleared => if ok { LoadPhase::Loaded } else { LoadPhase::Broken },
            other => other,
        }
    }

    /// Whether the load is over.
    pub fn is_done(self) -> (r: bool)
        ensures
            r == self.spec_is_done(),
            r <==> self.spec_next_action() is Stop,
    {
        match self {
            LoadPhase::Loaded | LoadPhase::Aborted | LoadPhase::Broken => true,
            _ => false,
        }
    }
}

/// A directory tree: each file's relative path mapped to its bytes.
pub type Tree = Map<Seq<char>, Seq<u8>>;

/// The two directories that a load touches.
pub struct Disk {
    pub live: Option<Tree>,
    pub backup: Option<Tree>,
}

/// What performing `action` may do to `d`, given the stored snapshot `snap`
/// and whether the action reported success. A failed copy or delete leaves
/// its own target in any state and the other directory alone.
pub open spec fn effect(d: Disk, action: LoadAction, ok: bool, snap: Tree, d2: Disk) -> bool {
    match action {
        LoadAction::ClearBackup => d2.live == d.live && (ok ==> d2.backup is None),
        LoadAction::TakeBackup => d2.live == d.live && (ok ==> d2.backup == d.live),
        LoadAction::ClearLive => d2.backup == d.backup && (ok ==> d2.live is None),
        LoadAction::FillLive => d2.backup == d.backup && (ok ==> d2.live == Some(snap)),
        LoadAction::Stop => d2 == d,
    }
}

/// What is known of the disk in each phase of a load that began on `d0`.
pub open spec fn phase_holds(p: LoadPhase, d: Disk, d0: Disk, snap: Tree) -> bool {
    match p {
        LoadPhase::Start | LoadPhase::BackupCleared | LoadPhase::Aborted => d.live == d0.live,
        LoadPhase::BackupTaken => d.live == d0.live && d.backup == d0.live,
        LoadPhase::LiveCleared | LoadPhase::Broken => d.backup == d0.live,
        LoadPhase::Loaded => d.backup == d0.live && d.live == Some(snap),
    }
}

/// Each step of the protocol keeps `phase_holds`: a failure before the live
/// directory is deleted leaves it untouched, and from then on the backup holds
/// an exact copy of the live directory as it was when the load began.
pub proof fn lemma_step_safe(p: LoadPhase, ok: bool, d0: Disk, d: Disk, d2: Disk, snap: Tree)
    requires
        phase_holds(p, d, d0, snap),
        effect(d, p.spec_next_action(), ok, snap, d2),
    ensures
        phase_holds(p.spec_advance(ok), d2, d0, snap),
{
}

/// Once a load ends: if it loaded, the live directory is the snapshot; if it
/// aborted, the live directory is as before; if it broke, the backup is the
/// live directory as before.
pub proof fn lemma_end_state(p: LoadPhase, d0: Disk, d: Disk, snap: Tree)
    requires
        phase_holds(p, d, d0, snap),
        p.spec_is_done(),
    ensures
        p is Loaded ==> d.live == Some(snap) && d.backup == d0.live,
        p is Aborted ==> d.live == d0.live,
        p is Broken ==> d.backup == d0.live,
{
}

/// The live directory is only deleted once a backup of it has been taken.
pub proof fn lemma_clear_live_needs_backup(p: LoadPhase, d0: Disk, d: Disk, snap: Tree)
    requires
        phase_holds(p, d, d0, snap),
        p.spec_next_action() is ClearLive,
    ensures
        d.backup == d0.live,
        d.live == d0.live,
{
}

/// When copying the snapshot into place fails, the load ends broken and the
/// backup still holds the live directory exactly as it was before the load.
pub proof fn lemma_failed_fill_keeps_backup(d0: Disk, d: Disk, d2: Disk, snap: Tree)
    requires
        phase_holds(LoadPhase::LiveCleared, d, d0, snap),
        effect(d, LoadAction::FillLive, false, snap, d2),
    ensures
        LoadPhase::LiveCleared.spec_advance(false) == LoadPhase::Broken,
        d2.backup == d0.live,
{
}

/// The phase reached from `Start` when the actions report `oks` in turn.
pub open spec fn phase_after(oks: Seq<bool>) -> LoadPhase
    decreases oks.len(),
{
    if oks.len() == 0 {
        LoadPhase::Start
    } else {
        phase_after(oks.drop_last()).spec_advance(oks.last())
    }
}

/// `disks` is a run of the protocol: each disk follows from the one before by
/// the action that the phase then called for, which reported `oks[i]`.
pub open spec fn is_run(oks: Seq<bool>, disks: Seq<Disk>, snap: Tree) -> bool {
    &&& disks.len() == oks.len() + 1
    &&& forall|i: int|
        0 <= i < oks.len() ==> effect(
            #[trigger] disks[i],
            phase_after(oks.take(i)).spec_next_action(),
            oks[i],
            snap,
            disks[i + 1],
        )
}

/// Over any run of a load, whatever fails: the phase reached describes the
/// disk. In particular a load that ends `Loaded` leaves the snapshot live and
/// the former live directory in the backup; one that ends `Broken` (the copy
/// into place failed, or deleting the live directory did) leaves the former
/// live directory in the backup; one that ends `Aborted` leaves the live
/// directory untouched.
pub proof fn lemma_run_safe(oks: Seq<bool>, disks: Seq<Disk>, snap: Tree)
    requires
        is_run(oks, disks, snap),
    ensures
        phase_holds(phase_after(oks), disks.last(), disks[0], snap),
    decreases oks.len(),
{
    if oks.len() > 0 {
        let n = oks.len() - 1;
        let pre = oks.drop_last();
        assert forall|i: int| 0 <= i < pre.len() implies effect(
            #[trigger] disks.drop_last()[i],
            phase_after(pre.take(i)).spec_next_action(),
            pre[i],
            snap,
            disks.drop_last()[i + 1],
        ) by {
            assert(pre.take(i) =~= oks.take(i));
            assert(effect(disks[i], phase_after(oks.take(i)).spec_next_action(), oks[i], snap, disks[i + 1]));
        }
        lemma_run_safe(pre, disks.drop_last(), snap);
        assert(oks.take(n) =~= pre);
        assert(effect(disks[n], phase_after(oks.take(n)).spec_next_action(), oks[n], snap, disks[n + 1]));
        lemma_step_safe(phase_after(pre), oks.last(), disks[0], disks[n], disks[n + 1], snap);
    }
}

} // verus!
