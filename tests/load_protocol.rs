use nauttaja::lifecycle::{record_new_save, uuid};
use nauttaja::listing::list_saves;
use nauttaja::load::{LoadAction, LoadPhase};
use nauttaja::record::{load_target, update_noita_dir, AddError, GameDB};
use std::collections::HashMap;

type Tree = HashMap<String, String>;

struct Disk {
    live: Option<Tree>,
    backup: Option<Tree>,
    stored: HashMap<String, Tree>,
}

fn tree(content: &str) -> Tree {
    let mut t = Tree::new();
    t.insert("world.dat".to_string(), content.to_string());
    t
}

/// Runs a load of `id` on `disk`, failing the action `fail_on` if given.
fn run_load(disk: &mut Disk, id: &str, fail_on: Option<LoadAction>) -> LoadPhase {
    let mut phase = LoadPhase::Start;
    while !phase.is_done() {
        let action = phase.next_action();
        let ok = if Some(action) == fail_on {
            false
        } else {
            match action {
                LoadAction::ClearBackup => {
                    disk.backup = None;
                    true
                }
                LoadAction::TakeBackup => match &disk.live {
                    Some(t) => {
                        disk.backup = Some(t.clone());
                        true
                    }
                    None => false,
                },
                LoadAction::ClearLive => {
                    disk.live = None;
                    true
                }
                LoadAction::FillLive => match disk.stored.get(id) {
                    Some(t) => {
                        disk.live = Some(t.clone());
                        true
                    }
                    None => false,
                },
                LoadAction::Stop => true,
            }
        };
        phase = phase.advance(ok);
    }
    phase
}

#[test]
fn phases_follow_the_protocol_order() {
    assert_eq!(LoadPhase::Start.next_action(), LoadAction::ClearBackup);
    assert_eq!(LoadPhase::BackupCleared.next_action(), LoadAction::TakeBackup);
    assert_eq!(LoadPhase::BackupTaken.next_action(), LoadAction::ClearLive);
    assert_eq!(LoadPhase::LiveCleared.next_action(), LoadAction::FillLive);
    assert_eq!(LoadPhase::Loaded.next_action(), LoadAction::Stop);
    assert_eq!(LoadPhase::Start.advance(false), LoadPhase::Aborted);
    assert_eq!(LoadPhase::BackupCleared.advance(false), LoadPhase::Aborted);
    assert_eq!(LoadPhase::BackupTaken.advance(false), LoadPhase::Broken);
    assert_eq!(LoadPhase::LiveCleared.advance(false), LoadPhase::Broken);
    assert_eq!(LoadPhase::LiveCleared.advance(true), LoadPhase::Loaded);
    assert_eq!(LoadPhase::Broken.advance(true), LoadPhase::Broken);
    assert!(!LoadPhase::BackupTaken.is_done());
}

#[test]
fn failed_fill_leaves_backup_of_previous_live_state() {
    let mut disk = Disk { live: Some(tree("v2")), backup: Some(tree("old")), stored: HashMap::new() };
    disk.stored.insert("id".to_string(), tree("v1"));
    let end = run_load(&mut disk, "id", Some(LoadAction::FillLive));
    assert_eq!(end, LoadPhase::Broken);
    assert_eq!(disk.backup, Some(tree("v2")));
}

#[test]
fn failed_backup_leaves_live_state_alone() {
    let mut disk = Disk { live: Some(tree("v2")), backup: None, stored: HashMap::new() };
    disk.stored.insert("id".to_string(), tree("v1"));
    let end = run_load(&mut disk, "id", Some(LoadAction::TakeBackup));
    assert_eq!(end, LoadPhase::Aborted);
    assert_eq!(disk.live, Some(tree("v2")));
}

#[test]
fn save_overwrite_then_load_scenario() {
    let mut db = GameDB::new();
    update_noita_dir(&mut db, "R");
    let mut disk = Disk { live: Some(tree("v1")), backup: None, stored: HashMap::new() };

    let id = uuid();
    disk.stored.insert(id.clone(), disk.live.clone().unwrap());
    assert_eq!(record_new_save(&mut db, "s1", id.clone()), Ok(()));
    let listed = list_saves(&db);
    assert_eq!(listed.len(), 1);
    assert_eq!(listed[0].name, "s1");

    disk.live = Some(tree("v2"));
    assert_eq!(db.check_new_name("s1"), Err(AddError::ExistsActive));
    assert_eq!(record_new_save(&mut db, "s1", uuid()), Err(AddError::ExistsActive));
    assert_eq!(db.saves.len(), 1);

    let target = load_target(&db, "s1").unwrap();
    assert_eq!(target, id);
    let end = run_load(&mut disk, &target, None);
    assert_eq!(end, LoadPhase::Loaded);
    assert_eq!(disk.live, Some(tree("v1")));
    assert_eq!(disk.backup, Some(tree("v2")));
}
