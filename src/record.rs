//! The save-record document: active saves, trashed saves and configuration.
use vstd::prelude::*;
use crate::text::same_text;

verus! {

/// Where the game keeps its files.
pub struct Config {
    pub noita_root_dir: String,
}

/// One named snapshot: its display name, the storage id that names its
/// directory, and when it was taken.
pub struct Save {
    pub name: String,
    pub directory: String,
    pub timestamp: String,
}

/// The whole persisted document.
pub struct GameDB {
    pub saves: Vec<Save>,
    pub trash: Vec<Save>,
    pub config: Config,
}

/// A record as plain character sequences.
pub struct SaveView {
    pub name: Seq<char>,
    pub directory: Seq<char>,
    pub timestamp: Seq<char>,
}

/// The document as sequences of records and the game's root directory.
pub struct GameDBView {
    pub saves: Seq<SaveView>,
    pub trash: Seq<SaveView>,
    pub root: Seq<char>,
}

impl View for Save {
    type V = SaveView;

    open spec fn view(&self) -> SaveView {
        SaveView { name: self.name@, directory: self.directory@, timestamp: self.timestamp@ }
    }
}

/// The views of a sequence of records, in order.
pub open spec fn views(v: Seq<Save>) -> Seq<SaveView> {
    v.map_values(|s: Save| s@)
}

impl View for GameDB {
    type V = GameDBView;

    open spec fn view(&self) -> GameDBView {
        GameDBView { saves: views(self.saves@), trash: views(self.trash@), root: self.config.noita_root_dir@ }
    }
}

/// Some record of `s` carries the name `n`.
pub open spec fn has_name(s: Seq<SaveView>, n: Seq<char>) -> bool {
    exists|i: int| 0 <= i < s.len() && #[trigger] s[i].name == n
}

/// Some record of `s` uses the storage id `d`.
pub open spec fn has_directory(s: Seq<SaveView>, d: Seq<char>) -> bool {
    exists|i: int| 0 <= i < s.len() && #[trigger] s[i].directory == d
}

/// The index of the record named `n` in `s` (meaningful when there is one).
pub open spec fn pos(s: Seq<SaveView>, n: Seq<char>) -> int {
    choose|i: int| 0 <= i < s.len() && #[trigger] s[i].name == n
}

/// No two records of `s` share a name or a storage id.
pub open spec fn distinct_in(s: Seq<SaveView>) -> bool {
    forall|i: int, j: int|
        0 <= i < s.len() && 0 <= j < s.len() && i != j ==> #[trigger] s[i].name != #[trigger] s[j].name
            && s[i].directory != s[j].directory
}

/// No record of `a` shares a name or a storage id with a record of `b`.
pub open spec fn disjoint(a: Seq<SaveView>, b: Seq<SaveView>) -> bool {
    forall|i: int, j: int|
        0 <= i < a.len() && 0 <= j < b.len() ==> #[trigger] a[i].name != #[trigger] b[j].name
            && a[i].directory != b[j].directory
}

impl GameDBView {
    /// Names and storage ids are unique across active and trashed saves.
    pub open spec fn wf(self) -> bool {
        distinct_in(self.saves) && distinct_in(self.trash) && disjoint(self.saves, self.trash)
    }

    /// The name `n` is taken, active or trashed.
    pub open spec fn holds_name(self, n: Seq<char>) -> bool {
        has_name(self.saves, n) || has_name(self.trash, n)
    }

    /// The storage id `d` is referenced, active or trashed.
    pub open spec fn holds_directory(self, d: Seq<char>) -> bool {
        has_directory(self.saves, d) || has_directory(self.trash, d)
    }

    /// The active record named `n` (when there is one).
    pub open spec fn active(self, n: Seq<char>) -> SaveView {
        self.saves[pos(self.saves, n)]
    }

    /// The trashed record named `n` (when there is one).
    pub open spec fn trashed(self, n: Seq<char>) -> SaveView {
        self.trash[pos(self.trash, n)]
    }

    /// The document with the active record named `n` moved to the trash.
    pub open spec fn move_to_trash(self, n: Seq<char>) -> GameDBView {
        GameDBView {
            saves: self.saves.remove(pos(self.saves, n)),
            trash: self.trash.push(self.active(n)),
            root: self.root,
        }
    }

    /// The document with the trashed record named `n` moved back among the active ones.
    pub open spec fn move_to_active(self, n: Seq<char>) -> GameDBView {
        GameDBView {
            saves: self.saves.push(self.trashed(n)),
            trash: self.trash.remove(pos(self.trash, n)),
            root: self.root,
        }
    }

    /// The document with the trashed record named `n` gone.
    pub open spec fn purge(self, n: Seq<char>) -> GameDBView {
        GameDBView { saves: self.saves, trash: self.trash.remove(pos(self.trash, n)), root: self.root }
    }

    /// The document with `r` added to the active records.
    pub open spec fn with_save(self, r: SaveView) -> GameDBView {
        GameDBView { saves: self.saves.push(r), trash: self.trash, root: self.root }
    }
}

/// In a sequence without repeated names, the record named `n` sits at `pos`.
pub proof fn lemma_pos_unique(s: Seq<SaveView>, n: Seq<char>, i: int)
    requires
        distinct_in(s),
        0 <= i < s.len(),
        s[i].name == n,
    ensures
        pos(s, n) == i,
{
    assert(has_name(s, n));
    let j = pos(s, n);
    assert(s[j].name == n);
}

/// The index of the first record of `v` named `name`, if any.
pub fn find_save(v: &Vec<Save>, name: &str) -> (r: Option<usize>)
    ensures
        r is None <==> !has_name(views(v@), name@),
        r matches Some(i) ==> i < v@.len() && v@[i as int].name@ == name@ && forall|k: int|
            0 <= k < i ==> v@[k].name@ != name@,
{
    let mut i: usize = 0;
    while i < v.len()
        invariant
            i <= v@.len(),
            forall|k: int| 0 <= k < i ==> v@[k].name@ != name@,
        decreases v.len() - i,
    {
        if same_text(v[i].name.as_str(), name) {
            assert(views(v@)[i as int].name == name@);
            return Some(i);
        }
        i = i + 1;
    }
    assert forall|k: int| 0 <= k < views(v@).len() implies #[trigger] views(v@)[k].name != name@ by {
        assert(views(v@)[k] == v@[k]@);
    }
    None
}

/// Whether some record of `v` uses the storage id `directory`.
pub fn uses_directory(v: &Vec<Save>, directory: &str) -> (r: bool)
    ensures
        r == has_directory(views(v@), directory@),
{
    let mut i: usize = 0;
    while i < v.len()
        invariant
            i <= v@.len(),
            forall|k: int| 0 <= k < i ==> v@[k].directory@ != directory@,
        decreases v.len() - i,
    {
        if same_text(v[i].directory.as_str(), directory) {
            assert(views(v@)[i as int].directory == directory@);
            return true;
        }
        i = i + 1;
    }
    assert forall|k: int| 0 <= k < views(v@).len() implies #[trigger] views(v@)[k].directory != directory@ by {
        assert(views(v@)[k] == v@[k]@);
    }
    false
}

/// Moving the active record named `n` to the trash keeps names and ids unique.
pub proof fn lemma_move_to_trash_wf(db: GameDBView, n: Seq<char>)
    requires
        db.wf(),
        has_name(db.saves, n),
    ensures
        db.move_to_trash(n).wf(),
{
    let i = pos(db.saves, n);
    let x = db.saves[i];
    let r = db.move_to_trash(n);
    assert forall|a: int, b: int|
        0 <= a < r.saves.len() && 0 <= b < r.saves.len() && a != b implies #[trigger] r.saves[a].name
        != #[trigger] r.saves[b].name && r.saves[a].directory != r.saves[b].directory by {
        let a0 = if a < i { a } else { a + 1 };
        let b0 = if b < i { b } else { b + 1 };
        assert(r.saves[a] == db.saves[a0] && r.saves[b] == db.saves[b0]);
        assert(db.saves[a0].name != db.saves[b0].name);
    }
    assert forall|a: int, b: int|
        0 <= a < r.trash.len() && 0 <= b < r.trash.len() && a != b implies #[trigger] r.trash[a].name
        != #[trigger] r.trash[b].name && r.trash[a].directory != r.trash[b].directory by {
        if a < db.trash.len() && b < db.trash.len() {
            assert(r.trash[a] == db.trash[a] && r.trash[b] == db.trash[b]);
            assert(db.trash[a].name != db.trash[b].name);
        } else if a < db.trash.len() {
            assert(r.trash[a] == db.trash[a] && r.trash[b] == db.saves[i]);
            assert(db.saves[i].name != db.trash[a].name);
        } else {
            assert(r.trash[b] == db.trash[b] && r.trash[a] == db.saves[i]);
            assert(db.saves[i].name != db.trash[b].name);
        }
    }
    assert forall|a: int, b: int|
        0 <= a < r.saves.len() && 0 <= b < r.trash.len() implies #[trigger] r.saves[a].name
        != #[trigger] r.trash[b].name && r.saves[a].directory != r.trash[b].directory by {
        let a0 = if a < i { a } else { a + 1 };
        assert(r.saves[a] == db.saves[a0]);
        if b < db.trash.len() {
            assert(r.trash[b] == db.trash[b]);
            assert(db.saves[a0].name != db.trash[b].name);
        } else {
            assert(r.trash[b] == db.saves[i]);
            assert(db.saves[a0].name != db.saves[i].name);
        }
    }
}

/// Moving the trashed record named `n` back keeps names and ids unique.
pub proof fn lemma_move_to_active_wf(db: GameDBView, n: Seq<char>)
    requires
        db.wf(),
        has_name(db.trash, n),
    ensures
        db.move_to_active(n).wf(),
{
    let i = pos(db.trash, n);
    let r = db.move_to_active(n);
    assert forall|a: int, b: int|
        0 <= a < r.trash.len() && 0 <= b < r.trash.len() && a != b implies #[trigger] r.trash[a].name
        != #[trigger] r.trash[b].name && r.trash[a].directory != r.trash[b].directory by {
        let a0 = if a < i { a } else { a + 1 };
        let b0 = if b < i { b } else { b + 1 };
        assert(r.trash[a] == db.trash[a0] && r.trash[b] == db.trash[b0]);
        assert(db.trash[a0].name != db.trash[b0].name);
    }
    assert forall|a: int, b: int|
        0 <= a < r.saves.len() && 0 <= b < r.saves.len() && a != b implies #[trigger] r.saves[a].name
        != #[trigger] r.saves[b].name && r.saves[a].directory != r.saves[b].directory by {
        if a < db.saves.len() && b < db.saves.len() {
            assert(r.saves[a] == db.saves[a] && r.saves[b] == db.saves[b]);
            assert(db.saves[a].name != db.saves[b].name);
        } else if a < db.saves.len() {
            assert(r.saves[a] == db.saves[a] && r.saves[b] == db.trash[i]);
            assert(db.saves[a].name != db.trash[i].name);
        } else {
            assert(r.saves[b] == db.saves[b] && r.saves[a] == db.trash[i]);
            assert(db.saves[b].name != db.trash[i].name);
        }
    }
    assert forall|a: int, b: int|
        0 <= a < r.saves.len() && 0 <= b < r.trash.len() implies #[trigger] r.saves[a].name
        != #[trigger] r.trash[b].name && r.saves[a].directory != r.trash[b].directory by {
        let b0 = if b < i { b } else { b + 1 };
        assert(r.trash[b] == db.trash[b0]);
        if a < db.saves.len() {
            assert(r.saves[a] == db.saves[a]);
            assert(db.saves[a].name != db.trash[b0].name);
        } else {
            assert(r.saves[a] == db.trash[i]);
            assert(db.trash[i].name != db.trash[b0].name);
        }
    }
    assert(distinct_in(r.saves));
    assert(distinct_in(r.trash));
    assert(disjoint(r.saves, r.trash));
}

/// Dropping the trashed record named `n` keeps names and ids unique.
pub proof fn lemma_purge_wf(db: GameDBView, n: Seq<char>)
    requires
        db.wf(),
        has_name(db.trash, n),
    ensures
        db.purge(n).wf(),
{
    let i = pos(db.trash, n);
    let r = db.purge(n);
    assert forall|a: int, b: int|
        0 <= a < r.trash.len() && 0 <= b < r.trash.len() && a != b implies #[trigger] r.trash[a].name
        != #[trigger] r.trash[b].name && r.trash[a].directory != r.trash[b].directory by {
        let a0 = if a < i { a } else { a + 1 };
        let b0 = if b < i { b } else { b + 1 };
        assert(r.trash[a] == db.trash[a0] && r.trash[b] == db.trash[b0]);
        assert(db.trash[a0].name != db.trash[b0].name);
    }
    assert forall|a: int, b: int|
        0 <= a < r.saves.len() && 0 <= b < r.trash.len() implies #[trigger] r.saves[a].name
        != #[trigger] r.trash[b].name && r.saves[a].directory != r.trash[b].directory by {
        let b0 = if b < i { b } else { b + 1 };
        assert(r.trash[b] == db.trash[b0]);
        assert(db.saves[a].name != db.trash[b0].name);
    }
}

/// Adding a record whose name and id are both unused keeps them unique.
pub proof fn lemma_with_save_wf(db: GameDBView, x: SaveView)
    requires
        db.wf(),
        !db.holds_name(x.name),
        !db.holds_directory(x.directory),
    ensures
        db.with_save(x).wf(),
{
    let r = db.with_save(x);
    assert forall|a: int, b: int|
        0 <= a < r.saves.len() && 0 <= b < r.saves.len() && a != b implies #[trigger] r.saves[a].name
        != #[trigger] r.saves[b].name && r.saves[a].directory != r.saves[b].directory by {
        if a == db.saves.len() {
            assert(r.saves[a] == x && r.saves[b] == db.saves[b]);
            assert(db.saves[b].name != x.name);
            assert(db.saves[b].directory != x.directory);
        } else if b == db.saves.len() {
            assert(r.saves[b] == x && r.saves[a] == db.saves[a]);
            assert(db.saves[a].name != x.name);
            assert(db.saves[a].directory != x.directory);
        } else {
            assert(r.saves[a] == db.saves[a] && r.saves[b] == db.saves[b]);
            assert(db.saves[a].name != db.saves[b].name);
        }
    }
    assert forall|a: int, b: int|
        0 <= a < r.saves.len() && 0 <= b < r.trash.len() implies #[trigger] r.saves[a].name
        != #[trigger] r.trash[b].name && r.saves[a].directory != r.trash[b].directory by {
        if a == db.saves.len() {
            assert(r.saves[a] == x);
            assert(db.trash[b].name != x.name);
            assert(db.trash[b].directory != x.directory);
        } else {
            assert(r.saves[a] == db.saves[a]);
            assert(db.saves[a].name != db.trash[b].name);
        }
    }
    assert(distinct_in(r.saves));
    assert(distinct_in(r.trash));
    assert(disjoint(r.saves, r.trash));
}

/// Why a new record was refused.
#[derive(Debug, PartialEq, Eq, Structural)]
pub enum AddError {
    /// An active save already has the name.
    ExistsActive,
    /// A trashed save already has the name.
    ExistsTrashed,
    /// The storage id is already referenced by a record.
    StorageInUse,
}

/// What `delete_save` did.
#[derive(Debug)]
pub enum DeleteOutcome {
    /// The trashed record was dropped; its storage directory is to be removed.
    Deleted(String),
    /// The name belongs to an active save, which must be trashed first.
    StillActive,
    /// No record has the name.
    NotFound,
}

proof fn lemma_views_remove(v: Seq<Save>, i: int)
    requires
        0 <= i < v.len(),
    ensures
        views(v.remove(i)) =~= views(v).remove(i),
{
}

proof fn lemma_views_push(v: Seq<Save>, x: Save)
    ensures
        views(v.push(x)) =~= views(v).push(x@),
{
}

impl Save {
    /// A copy of this record.
    pub fn duplicate(&self) -> (r: Save)
        ensures
            r@ == self@,
    {
        Save { name: self.name.clone(), directory: self.directory.clone(), timestamp: self.timestamp.clone() }
    }
}

/// Copies of the records of `v`, in the same order.
pub fn duplicate_all(v: &Vec<Save>) -> (r: Vec<Save>)
    ensures
        views(r@) == views(v@),
{
    let mut r: Vec<Save> = Vec::new();
    let mut i: usize = 0;
    while i < v.len()
        invariant
            i <= v@.len(),
            views(r@) =~= views(v@).subrange(0, i as int),
        decreases v.len() - i,
    {
        let ghost before = r@;
        let d = v[i].duplicate();
        proof {
            lemma_views_push(before, d);
            assert(views(v@)[i as int] == v@[i as int]@);
        }
        r.push(d);
        assert(views(r@) =~= views(v@).subrange(0, i + 1));
        i = i + 1;
    }
    assert(views(v@).subrange(0, i as int) =~= views(v@));
    r
}

/// Whether no record of `a` shares a name or storage id with a record of `b`.
pub fn disjoint_records(a: &Vec<Save>, b: &Vec<Save>) -> (r: bool)
    ensures
        r == disjoint(views(a@), views(b@)),
{
    let ghost va = views(a@);
    let ghost vb = views(b@);
    let mut i: usize = 0;
    while i < a.len()
        invariant
            i <= a@.len(),
            va == views(a@),
            vb == views(b@),
            forall|x: int, y: int|
                0 <= x < i && 0 <= y < vb.len() ==> #[trigger] va[x].name != #[trigger] vb[y].name
                    && va[x].directory != vb[y].directory,
        decreases a.len() - i,
    {
        let mut j: usize = 0;
        while j < b.len()
            invariant
                i < a@.len(),
                j <= b@.len(),
                va == views(a@),
                vb == views(b@),
                forall|x: int, y: int|
                    0 <= x < i && 0 <= y < vb.len() ==> #[trigger] va[x].name != #[trigger] vb[y].name
                        && va[x].directory != vb[y].directory,
                forall|y: int| 0 <= y < j ==> va[i as int].name != #[trigger] vb[y].name
                    && va[i as int].directory != vb[y].directory,
            decreases b.len() - j,
        {
            assert(va[i as int] == a@[i as int]@ && vb[j as int] == b@[j as int]@);
            let same_name = same_text(a[i].name.as_str(), b[j].name.as_str());
            let same_dir = same_text(a[i].directory.as_str(), b[j].directory.as_str());
            assert(same_name == (va[i as int].name == vb[j as int].name));
            assert(same_dir == (va[i as int].directory == vb[j as int].directory));
            if same_name || same_dir {
                return false;
            }
            assert forall|y: int| 0 <= y < j + 1 implies va[i as int].name != #[trigger] vb[y].name
                && va[i as int].directory != vb[y].directory by {
                if y < j {
                    assert(va[i as int].name != vb[y].name);
                }
            }
            j = j + 1;
        }
        assert forall|x: int, y: int| 0 <= x < i + 1 && 0 <= y < vb.len() implies #[trigger] va[x].name
            != #[trigger] vb[y].name && va[x].directory != vb[y].directory by {
            if x < i {
                assert(va[x].name != vb[y].name);
            } else {
                assert(va[i as int].name != vb[y].name);
            }
        }
        i = i + 1;
    }
    true
}

/// Whether no two records of `v` share a name or a storage id.
pub fn distinct_records(v: &Vec<Save>) -> (r: bool)
    ensures
        r == distinct_in(views(v@)),
{
    let ghost w = views(v@);
    let mut i: usize = 0;
    while i < v.len()
        invariant
            i <= v@.len(),
            w == views(v@),
            forall|x: int, y: int|
                0 <= x < i && 0 <= y < i && x != y ==> #[trigger] w[x].name != #[trigger] w[y].name
                    && w[x].directory != w[y].directory,
        decreases v.len() - i,
    {
        let mut j: usize = 0;
        while j < i
            invariant
                i < v@.len(),
                j <= i,
                w == views(v@),
                forall|x: int, y: int|
                    0 <= x < i && 0 <= y < i && x != y ==> #[trigger] w[x].name != #[trigger] w[y].name
                        && w[x].directory != w[y].directory,
                forall|y: int| 0 <= y < j ==> w[i as int].name != #[trigger] w[y].name
                    && w[i as int].directory != w[y].directory,
            decreases i - j,
        {
            assert(w[i as int] == v@[i as int]@ && w[j as int] == v@[j as int]@);
            let same_name = same_text(v[i].name.as_str(), v[j].name.as_str());
            let same_dir = same_text(v[i].directory.as_str(), v[j].directory.as_str());
            assert(same_name == (w[i as int].name == w[j as int].name));
            assert(same_dir == (w[i as int].directory == w[j as int].directory));
            if same_name || same_dir {
                assert(w[i as int].name == w[j as int].name || w[i as int].directory == w[j as int].directory);
                return false;
            }
            assert forall|y: int| 0 <= y < j + 1 implies w[i as int].name != #[trigger] w[y].name
                && w[i as int].directory != w[y].directory by {
                if y < j {
                    assert(w[i as int].name != w[y].name);
                }
            }
            j = j + 1;
        }
        i = i + 1;
    }
    true
}

impl GameDB {
    /// Whether names and storage ids are unique across all records, as the
    /// record operations require of a document read back from storage.
    pub fn is_well_formed(&self) -> (r: bool)
        ensures
            r == self@.wf(),
    {
        distinct_records(&self.saves) && distinct_records(&self.trash) && disjoint_records(
            &self.saves,
            &self.trash,
        )
    }

    /// An empty, unconfigured document.
    pub fn new() -> (r: GameDB)
        ensures
            r@.saves.len() == 0,
            r@.trash.len() == 0,
            r@.root.len() == 0,
            r@.wf(),
    {
        GameDB { saves: Vec::new(), trash: Vec::new(), config: Config { noita_root_dir: String::new() } }
    }

    /// Whether the game's directory has been set.
    pub fn is_configured(&self) -> (r: bool)
        ensures
            r == (self@.root.len() > 0),
    {
        self.config.noita_root_dir.as_str().unicode_len() > 0
    }

    /// Whether `name` is free for a new save, and if not, where it is taken.
    pub fn check_new_name(&self, name: &str) -> (r: Result<(), AddError>)
        ensures
            r is Ok <==> !self@.holds_name(name@),
            r == Err::<(), AddError>(AddError::ExistsActive) <==> has_name(self@.saves, name@),
            r == Err::<(), AddError>(AddError::ExistsTrashed) <==> !has_name(self@.saves, name@)
                && has_name(self@.trash, name@),
    {
        if find_save(&self.saves, name).is_some() {
            Err(AddError::ExistsActive)
        } else if find_save(&self.trash, name).is_some() {
            Err(AddError::ExistsTrashed)
        } else {
            Ok(())
        }
    }

    /// Records `save` as a new active save, unless its name is taken (active
    /// or trashed) or its storage id is already referenced.
    pub fn add_save(&mut self, save: Save) -> (r: Result<(), AddError>)
        requires
            old(self)@.wf(),
        ensures
            final(self)@.wf(),
            r is Ok <==> !old(self)@.holds_name(save@.name) && !old(self)@.holds_directory(
                save@.directory,
            ),
            r == Err::<(), AddError>(AddError::ExistsActive) <==> has_name(old(self)@.saves, save@.name),
            r == Err::<(), AddError>(AddError::ExistsTrashed) <==> !has_name(old(self)@.saves, save@.name)
                && has_name(old(self)@.trash, save@.name),
            r == Err::<(), AddError>(AddError::StorageInUse) <==> !old(self)@.holds_name(save@.name)
                && old(self)@.holds_directory(save@.directory),
            r is Ok ==> final(self)@ == old(self)@.with_save(save@),
            r is Err ==> final(self)@ == old(self)@,
    {
        match self.check_new_name(save.name.as_str()) {
            Err(e) => {
                return Err(e);
            },
            Ok(()) => {},
        }
        if uses_directory(&self.saves, save.directory.as_str()) || uses_directory(
            &self.trash,
            save.directory.as_str(),
        ) {
            return Err(AddError::StorageInUse);
        }
        proof {
            lemma_with_save_wf(self@, save@);
            lemma_views_push(self.saves@, save);
        }
        self.saves.push(save);
        Ok(())
    }

    /// Moves the active save named `name` to the trash; `false` when there is none.
    pub fn remove_save(&mut self, name: &str) -> (found: bool)
        requires
            old(self)@.wf(),
        ensures
            final(self)@.wf(),
            found == has_name(old(self)@.saves, name@),
            found ==> final(self)@ == old(self)@.move_to_trash(name@),
            !found ==> final(self)@ == old(self)@,
    {
        match find_save(&self.saves, name) {
            None => false,
            Some(i) => {
                proof {
                    lemma_pos_unique(self@.saves, name@, i as int);
                    lemma_move_to_trash_wf(self@, name@);
                    lemma_views_remove(self.saves@, i as int);
                }
                let ghost old_trash = self.trash@;
                let s = self.saves.remove(i);
                proof {
                    lemma_views_push(old_trash, s);
                }
                self.trash.push(s);
                true
            },
        }
    }

    /// Moves the trashed save named `name` back among the active ones; `false`
    /// when there is none.
    pub fn restore_save(&mut self, name: &str) -> (found: bool)
        requires
            old(self)@.wf(),
        ensures
            final(self)@.wf(),
            found == has_name(old(self)@.trash, name@),
            found ==> final(self)@ == old(self)@.move_to_active(name@),
            !found ==> final(self)@ == old(self)@,
    {
        match find_save(&self.trash, name) {
            None => false,
            Some(i) => {
                proof {
                    lemma_pos_unique(self@.trash, name@, i as int);
                    lemma_move_to_active_wf(self@, name@);
                    lemma_views_remove(self.trash@, i as int);
                }
                let ghost old_saves = self.saves@;
                let s = self.trash.remove(i);
                proof {
                    lemma_views_push(old_saves, s);
                }
                self.saves.push(s);
                true
            },
        }
    }

    /// Drops the trashed save named `name` and hands back its storage id.
    /// An active save is left alone: it has to be trashed first.
    pub fn delete_save(&mut self, name: &str) -> (r: DeleteOutcome)
        requires
            old(self)@.wf(),
        ensures
            final(self)@.wf(),
            r is Deleted <==> has_name(old(self)@.trash, name@),
            r is StillActive <==> !has_name(old(self)@.trash, name@) && has_name(old(self)@.saves, name@),
            r is NotFound <==> !old(self)@.holds_name(name@),
            r matches DeleteOutcome::Deleted(d) ==> d@ == old(self)@.trashed(name@).directory
                && final(self)@ == old(self)@.purge(name@),
            !(r is Deleted) ==> final(self)@ == old(self)@,
    {
        match find_save(&self.trash, name) {
            None => {
                if find_save(&self.saves, name).is_some() {
                    DeleteOutcome::StillActive
                } else {
                    DeleteOutcome::NotFound
                }
            },
            Some(i) => {
                proof {
                    lemma_pos_unique(self@.trash, name@, i as int);
                    lemma_purge_wf(self@, name@);
                    lemma_views_remove(self.trash@, i as int);
                }
                let s = self.trash.remove(i);
                DeleteOutcome::Deleted(s.directory)
            },
        }
    }
}

/// Points the document at the game's directory `noita_path`; the records are kept.
pub fn update_noita_dir(db: &mut GameDB, noita_path: &str)
    requires
        old(db)@.wf(),
    ensures
        final(db)@ == (GameDBView { root: noita_path@, ..old(db)@ }),
        final(db)@.wf(),
{
    db.config.noita_root_dir = noita_path.to_owned();
}

/// The storage id of the active save named `name`: the snapshot a load installs.
pub fn load_target(db: &GameDB, name: &str) -> (r: Option<String>)
    requires
        db@.wf(),
    ensures
        r is Some <==> has_name(db@.saves, name@),
        r matches Some(d) ==> d@ == db@.active(name@).directory,
{
    match find_save(&db.saves, name) {
        None => None,
        Some(i) => {
            proof {
                lemma_pos_unique(db@.saves, name@, i as int);
            }
            Some(db.saves[i].directory.clone())
        },
    }
}

/// Trashing a save and restoring it brings back the very same record (same
/// storage id and timestamp) and leaves the trash as it was.
pub proof fn lemma_remove_then_restore(db: GameDBView, n: Seq<char>)
    requires
        db.wf(),
        has_name(db.saves, n),
    ensures
        has_name(db.move_to_trash(n).trash, n),
        has_name(db.move_to_trash(n).move_to_active(n).saves, n),
        db.move_to_trash(n).move_to_active(n).active(n) == db.active(n),
        db.move_to_trash(n).move_to_active(n).trash == db.trash,
        db.move_to_trash(n).move_to_active(n).root == db.root,
{
    let x = db.active(n);
    let t = db.move_to_trash(n);
    lemma_move_to_trash_wf(db, n);
    let k = t.trash.len() - 1;
    assert(t.trash[k] == x);
    lemma_pos_unique(t.trash, n, k);
    assert(t.trash.remove(k) =~= db.trash);
    let a = t.move_to_active(n);
    lemma_move_to_active_wf(t, n);
    let m = a.saves.len() - 1;
    assert(a.saves[m] == x);
    lemma_pos_unique(a.saves, n, m);
}

/// Trashing a save and then deleting it leaves no record with its name and
/// none that refers to its storage id, which `delete_save` hands back for removal.
pub proof fn lemma_trash_then_delete(db: GameDBView, n: Seq<char>)
    requires
        db.wf(),
        has_name(db.saves, n),
    ensures
        has_name(db.move_to_trash(n).trash, n),
        db.move_to_trash(n).trashed(n).directory == db.active(n).directory,
        !db.move_to_trash(n).purge(n).holds_name(n),
        !db.move_to_trash(n).purge(n).holds_directory(db.active(n).directory),
{
    let x = db.active(n);
    let i = pos(db.saves, n);
    let t = db.move_to_trash(n);
    lemma_move_to_trash_wf(db, n);
    let k = t.trash.len() - 1;
    assert(t.trash[k] == x);
    lemma_pos_unique(t.trash, n, k);
    let r = t.purge(n);
    assert(r.trash =~= db.trash);
    assert forall|j: int| 0 <= j < r.saves.len() implies r.saves[j].name != n
        && #[trigger] r.saves[j].directory != x.directory by {
        let j0 = if j < i { j } else { j + 1 };
        assert(r.saves[j] == db.saves[j0]);
        assert(db.saves[j0].name != db.saves[i].name);
    }
    assert forall|j: int| 0 <= j < r.trash.len() implies r.trash[j].name != n
        && #[trigger] r.trash[j].directory != x.directory by {
        assert(db.saves[i].name != db.trash[j].name);
    }
    assert(!has_name(r.saves, n));
    assert(!has_name(r.trash, n));
}

/// In a well-formed document no two records, active or trashed, share a name.
/// `add_save`, `record_new_save`, `remove_save`, `restore_save` and
/// `delete_save` all keep the document well-formed.
pub proof fn lemma_names_unique(db: GameDBView)
    requires
        db.wf(),
    ensures
        forall|i: int, j: int|
            0 <= i < (db.saves + db.trash).len() && 0 <= j < (db.saves + db.trash).len() && i != j
                ==> #[trigger] (db.saves + db.trash)[i].name != #[trigger] (db.saves + db.trash)[j].name,
{
    let all = db.saves + db.trash;
    let n = db.saves.len() as int;
    assert forall|i: int, j: int| 0 <= i < all.len() && 0 <= j < all.len() && i != j implies #[trigger] all[i].name
        != #[trigger] all[j].name by {
        if i < n && j < n {
            assert(db.saves[i].name != db.saves[j].name);
        } else if i < n {
            assert(db.saves[i].name != db.trash[j - n].name);
        } else if j < n {
            assert(db.saves[j].name != db.trash[i - n].name);
        } else {
            assert(db.trash[i - n].name != db.trash[j - n].name);
        }
    }
}

} // verus!
