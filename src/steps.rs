//! The order of the steps that take and delete saves, over a model of the
//! snapshot storage: data is copied in before its record is committed, and
//! a record is dropped before its data is removed.
//!
//! As for loads, the caller performs each action that `next_action` names and
//! reports whether it succeeded; `advance` gives the next phase.
use vstd::prelude::*;
use crate::load::{Disk, LoadPhase, Tree, phase_holds};
use crate::record::{GameDBView, has_name, lemma_purge_wf, pos};

verus! {

/// Where the taking of a new save stands.
#[derive(Clone, Copy, Debug, PartialEq, Eq, Structural)]
pub enum CreatePhase {
    /// Nothing done yet.
    Start,
    /// The source directory has been copied under the fresh storage id.
    Copied,
    /// The record has been committed.
    Created,
    /// A step failed; no record was committed.
    Failed,
}

/// What the caller is to do next when taking a save.
#[derive(Clone, Copy, Debug, PartialEq, Eq, Structural)]
pub enum CreateAction {
    /// Copy the source directory under the fresh storage id.
    CopyIn,
    /// Commit the record naming that storage id.
    Commit,
    /// Nothing is left to do.
    Stop,
}

/// Where the deletion of a trashed save stands.
#[derive(Clone, Copy, Debug, PartialEq, Eq, Structural)]
pub enum DeletePhase {
    /// Nothing done yet.
    Start,
    /// The record has been dropped from the trash.
    Committed,
    /// The storage directory has been removed too.
    Deleted,
    /// Dropping the record failed; nothing changed.
    Failed,
    /// The record is gone but removing its directory failed: the directory is
    /// left unreferenced.
    Orphaned,
}

/// What the caller is to do next when deleting a save.
#[derive(Clone, Copy, Debug, PartialEq, Eq, Structural)]
pub enum DeleteAction {
    /// Drop the record from the trash.
    Commit,
    /// Remove the storage directory that the record named.
    RemoveStorage,
    /// Nothing is left to do.
    Stop,
}

impl CreatePhase {
    pub open spec fn spec_next_action(self) -> CreateAction {
        match self {
            CreatePhase::Start => CreateAction::CopyIn,
            CreatePhase::Copied => CreateAction::Commit,
            _ => CreateAction::Stop,
        }
    }

    pub open spec fn spec_advance(self, ok: bool) -> CreatePhase {
        match self {
            CreatePhase::Start => if ok { CreatePhase::Copied } else { CreatePhase::Failed },
            CreatePhase::Copied => if ok { CreatePhase::Created } else { CreatePhase::Failed },
            other => other,
        }
    }

    /// The action that this phase calls for.
    pub fn next_action(self) -> (r: CreateAction)
        ensures
            r == self.spec_next_action(),
    {
        match self {
            CreatePhase::Start => CreateAction::CopyIn,
            CreatePhase::Copied => CreateAction::Commit,
            _ => CreateAction::Stop,
        }
    }

    /// The phase after the current action succeeded (`ok`) or failed.
    pub fn advance(self, ok: bool) -> (r: CreatePhase)
        ensures
            r == self.spec_advance(ok),
    {
        match self {
            CreatePhase::Start => if ok { CreatePhase::Copied } else { CreatePhase::Failed },
            CreatePhase::Copied => if ok { CreatePhase::Created } else { CreatePhase::Failed },
            other => other,
        }
    }

    /// Whether taking the save is over.
    pub fn is_done(self) -> (r: bool)
        ensures
            r <==> self.spec_next_action() is Stop,
    {
        match self {
            CreatePhase::Created | CreatePhase::Failed => true,
            _ => false,
        }
    }
}

impl DeletePhase {
    pub open spec fn spec_next_action(self) -> DeleteAction {
        match self {
            DeletePhase::Start => DeleteAction::Commit,
            DeletePhase::Committed => DeleteAction::RemoveStorage,
            _ => DeleteAction::Stop,
        }
    }

    pub open spec fn spec_advance(self, ok: bool) -> DeletePhase {
        match self {
            DeletePhase::Start => if ok { DeletePhase::Committed } else { DeletePhase::Failed },
            DeletePhase::Committed => if ok { DeletePhase::Deleted } else { DeletePhase::Orphaned },
            other => other,
        }
    }

    /// The action that this phase calls for.
    pub fn next_action(self) -> (r: DeleteAction)
        ensures
            r == self.spec_next_action(),
    {
        match self {
            DeletePhase::Start => DeleteAction::Commit,
            DeletePhase::Committed => DeleteAction::RemoveStorage,
            _ => DeleteAction::Stop,
        }
    }

    /// The phase after the current action succeeded (`ok`) or failed.
    pub fn advance(self, ok: bool) -> (r: DeletePhase)
        ensures
            r == self.spec_advance(ok),
    {
        match self {
            DeletePhase::Start => if ok { DeletePhase::Committed } else { DeletePhase::Failed },
            DeletePhase::Committed => if ok { DeletePhase::Deleted } else { DeletePhase::Orphaned },
            other => other,
        }
    }

    /// Whether the deletion is over.
    pub fn is_done(self) -> (r: bool)
        ensures
            r <==> self.spec_next_action() is Stop,
    {
        match self {
            DeletePhase::Deleted | DeletePhase::Failed | DeletePhase::Orphaned => true,
            _ => false,
        }
    }
}

/// The record document together with the snapshot directories, by storage id.
pub struct Vault {
    pub db: GameDBView,
    pub stored: Map<Seq<char>, Tree>,
}

/// What performing a create action may do, when copying `src` in under `id`
/// and committing a record named `n` for it. A failed copy may leave any
/// partial tree under `id`; a failed commit changes nothing.
pub open spec fn create_effect(
    v: Vault,
    action: CreateAction,
    ok: bool,
    n: Seq<char>,
    id: Seq<char>,
    src: Tree,
    v2: Vault,
) -> bool {
    match action {
        CreateAction::CopyIn => v2.db == v.db && (ok ==> v2.stored == v.stored.insert(id, src)) && (!ok
            ==> v2.stored.remove(id) == v.stored.remove(id)),
        CreateAction::Commit => v2.stored == v.stored && (ok ==> has_name(v2.db.saves, n)
            && v2.db.active(n).directory == id) && (!ok ==> v2.db == v.db),
        CreateAction::Stop => v2 == v,
    }
}

/// What is known in each phase of taking a save that began on `v0`.
pub open spec fn create_holds(
    p: CreatePhase,
    v: Vault,
    v0: Vault,
    n: Seq<char>,
    id: Seq<char>,
    src: Tree,
) -> bool {
    match p {
        CreatePhase::Start | CreatePhase::Failed => v.db == v0.db,
        CreatePhase::Copied => v.db == v0.db && v.stored.contains_key(id) && v.stored[id] == src,
        CreatePhase::Created => has_name(v.db.saves, n) && v.db.active(n).directory == id
            && v.stored.contains_key(id) && v.stored[id] == src,
    }
}

/// Each step of taking a save keeps `create_holds`: the record is committed
/// only once the data it names is in place, and a failure commits nothing.
pub proof fn lemma_create_step(
    p: CreatePhase,
    ok: bool,
    v0: Vault,
    v: Vault,
    v2: Vault,
    n: Seq<char>,
    id: Seq<char>,
    src: Tree,
)
    requires
        create_holds(p, v, v0, n, id, src),
        create_effect(v, p.spec_next_action(), ok, n, id, src, v2),
    ensures
        create_holds(p.spec_advance(ok), v2, v0, n, id, src),
{
}

/// What performing a delete action may do, for the trashed record named `n`
/// whose storage id, handed back by the commit, is `d`.
pub open spec fn delete_effect(
    v: Vault,
    action: DeleteAction,
    ok: bool,
    n: Seq<char>,
    d: Seq<char>,
    v2: Vault,
) -> bool {
    match action {
        DeleteAction::Commit => v2.stored == v.stored && (ok ==> v2.db == v.db.purge(n)) && (!ok ==> v2.db
            == v.db),
        DeleteAction::RemoveStorage => v2.db == v.db && (ok ==> v2.stored == v.stored.remove(d)),
        DeleteAction::Stop => v2 == v,
    }
}

/// What is known in each phase of deleting the trashed record named `n`,
/// whose storage id is `d`, from `v0`.
pub open spec fn delete_holds(p: DeletePhase, v: Vault, v0: Vault, n: Seq<char>, d: Seq<char>) -> bool {
    match p {
        DeletePhase::Start | DeletePhase::Failed => v.db == v0.db,
        DeletePhase::Committed | DeletePhase::Orphaned => v.db == v0.db.purge(n),
        DeletePhase::Deleted => v.db == v0.db.purge(n) && !v.stored.contains_key(d),
    }
}

/// Each step of deleting keeps `delete_holds`: the record is dropped before
/// its directory is removed, and a failed commit changes nothing.
pub proof fn lemma_delete_step(
    p: DeletePhase,
    ok: bool,
    v0: Vault,
    v: Vault,
    v2: Vault,
    n: Seq<char>,
    d: Seq<char>,
)
    requires
        delete_holds(p, v, v0, n, d),
        delete_effect(v, p.spec_next_action(), ok, n, d, v2),
    ensures
        delete_holds(p.spec_advance(ok), v2, v0, n, d),
{
}

/// Dropping the trashed record named `n` leaves no record with its name or
/// its storage id.
pub proof fn lemma_purge_forgets(db: GameDBView, n: Seq<char>)
    requires
        db.wf(),
        has_name(db.trash, n),
    ensures
        !db.purge(n).holds_name(n),
        !db.purge(n).holds_directory(db.trashed(n).directory),
{
    let i = pos(db.trash, n);
    let x = db.trash[i];
    let r = db.purge(n);
    assert forall|j: int| 0 <= j < r.saves.len() implies r.saves[j].name != n
        && #[trigger] r.saves[j].directory != x.directory by {
        assert(db.saves[j].name != db.trash[i].name);
    }
    assert forall|j: int| 0 <= j < r.trash.len() implies r.trash[j].name != n
        && #[trigger] r.trash[j].directory != x.directory by {
        let j0 = if j < i { j } else { j + 1 };
        assert(r.trash[j] == db.trash[j0]);
        assert(db.trash[j0].name != db.trash[i].name);
    }
    assert(!has_name(r.saves, n));
    assert(!has_name(r.trash, n));
}

/// A deletion that ends `Deleted` leaves no record with the name, none that
/// refers to the storage id, and no directory under that id.
pub proof fn lemma_deleted_is_gone(v0: Vault, v: Vault, n: Seq<char>)
    requires
        v0.db.wf(),
        has_name(v0.db.trash, n),
        delete_holds(DeletePhase::Deleted, v, v0, n, v0.db.trashed(n).directory),
    ensures
        !v.db.holds_name(n),
        !v.db.holds_directory(v0.db.trashed(n).directory),
        !v.stored.contains_key(v0.db.trashed(n).directory),
        v.db.wf(),
{
    lemma_purge_forgets(v0.db, n);
    lemma_purge_wf(v0.db, n);
}

/// Saving then loading: a save taken of the tree `t` under the id `id`, whose
/// directory is left unchanged, is what a load of it that ends `Loaded` leaves
/// live, byte for byte; the backup then holds the live tree from before.
pub proof fn lemma_save_then_load(
    v0: Vault,
    v: Vault,
    n: Seq<char>,
    id: Seq<char>,
    t: Tree,
    d0: Disk,
    d: Disk,
)
    requires
        create_holds(CreatePhase::Created, v, v0, n, id, t),
        phase_holds(LoadPhase::Loaded, d, d0, v.stored[id]),
    ensures
        d.live == Some(t),
        d.backup == d0.live,
{
}

} // verus!
