use nauttaja::lifecycle::{noita_save_dir, record_new_save, uuid};
use nauttaja::listing::{list_saves, list_trash, listing_line, sort_newest_first};
use nauttaja::record::{find_save, load_target, update_noita_dir, AddError, Config, DeleteOutcome, GameDB, Save};

fn save(name: &str, dir: &str, ts: &str) -> Save {
    Save { name: name.to_string(), directory: dir.to_string(), timestamp: ts.to_string() }
}

fn names(v: &[Save]) -> Vec<String> {
    v.iter().map(|s| s.name.clone()).collect()
}

#[test]
fn new_document_is_empty_and_unconfigured() {
    let db = GameDB::new();
    assert!(db.saves.is_empty());
    assert!(db.trash.is_empty());
    assert!(!db.is_configured());
}

#[test]
fn setting_root_configures() {
    let mut db = GameDB::new();
    update_noita_dir(&mut db, "C:\\Games\\Noita");
    assert!(db.is_configured());
    assert_eq!(db.config.noita_root_dir, "C:\\Games\\Noita");
}

#[test]
fn live_directory_path() {
    let c = Config { noita_root_dir: "R".to_string() };
    assert_eq!(noita_save_dir(&c), "R\\save00");
}

#[test]
fn storage_ids_are_hyphenated_and_fresh() {
    let a = uuid();
    let b = uuid();
    assert_eq!(a.len(), 36);
    assert_eq!(a.chars().nth(8), Some('-'));
    assert_eq!(a.chars().nth(23), Some('-'));
    assert_ne!(a, b);
    for (i, c) in a.chars().enumerate() {
        if i == 8 || i == 13 || i == 18 || i == 23 {
            assert_eq!(c, '-');
        } else {
            assert!(c.is_ascii_hexdigit() && !c.is_ascii_uppercase(), "{}", a);
        }
    }
    assert_eq!(a.chars().nth(14), Some('4'));
    assert!(matches!(a.chars().nth(19), Some('8') | Some('9') | Some('a') | Some('b')));
}

#[test]
fn add_rejects_taken_names_and_ids() {
    let mut db = GameDB::new();
    assert_eq!(db.add_save(save("a", "id1", "2021-01-01 00:00:00")), Ok(()));
    assert_eq!(db.add_save(save("a", "id2", "2021-01-01 00:00:00")), Err(AddError::ExistsActive));
    assert_eq!(db.add_save(save("b", "id1", "2021-01-01 00:00:00")), Err(AddError::StorageInUse));
    assert!(db.remove_save("a"));
    assert_eq!(db.add_save(save("a", "id3", "2021-01-01 00:00:00")), Err(AddError::ExistsTrashed));
    assert_eq!(db.check_new_name("a"), Err(AddError::ExistsTrashed));
    assert_eq!(db.check_new_name("c"), Ok(()));
    assert_eq!(db.saves.len(), 0);
    assert_eq!(db.trash.len(), 1);
}

#[test]
fn created_save_is_listed() {
    let mut db = GameDB::new();
    assert_eq!(record_new_save(&mut db, "a", uuid()), Ok(()));
    let listed = list_saves(&db);
    assert_eq!(names(&listed), vec!["a".to_string()]);
    assert_eq!(listed[0].timestamp.len(), 19);
}

#[test]
fn remove_then_restore_keeps_record() {
    let mut db = GameDB::new();
    db.add_save(save("x", "idx", "2020-05-05 10:00:00")).unwrap();
    db.add_save(save("a", "ida", "2021-02-03 04:05:06")).unwrap();
    assert!(db.remove_save("a"));
    assert_eq!(names(&db.saves), vec!["x".to_string()]);
    assert_eq!(names(&db.trash), vec!["a".to_string()]);
    assert!(db.restore_save("a"));
    assert!(db.trash.is_empty());
    let i = find_save(&db.saves, "a").unwrap();
    assert_eq!(db.saves[i].directory, "ida");
    assert_eq!(db.saves[i].timestamp, "2021-02-03 04:05:06");
}

#[test]
fn remove_and_restore_of_unknown_names_change_nothing() {
    let mut db = GameDB::new();
    db.add_save(save("a", "ida", "t")).unwrap();
    assert!(!db.remove_save("b"));
    assert!(!db.restore_save("a"));
    assert_eq!(names(&db.saves), vec!["a".to_string()]);
    assert!(db.trash.is_empty());
}

#[test]
fn delete_of_active_save_is_refused() {
    let mut db = GameDB::new();
    db.add_save(save("a", "ida", "t")).unwrap();
    assert!(matches!(db.delete_save("a"), DeleteOutcome::StillActive));
    assert_eq!(names(&db.saves), vec!["a".to_string()]);
    assert!(db.trash.is_empty());
    assert!(matches!(db.delete_save("zzz"), DeleteOutcome::NotFound));
}

#[test]
fn trash_then_delete_forgets_save() {
    let mut db = GameDB::new();
    db.add_save(save("a", "ida", "t")).unwrap();
    assert!(db.remove_save("a"));
    match db.delete_save("a") {
        DeleteOutcome::Deleted(d) => assert_eq!(d, "ida"),
        other => panic!("unexpected {:?}", other),
    }
    assert!(db.saves.is_empty());
    assert!(db.trash.is_empty());
    assert_eq!(db.check_new_name("a"), Ok(()));
    assert_eq!(db.add_save(save("b", "ida", "t")), Ok(()));
}

#[test]
fn load_target_is_active_storage_id() {
    let mut db = GameDB::new();
    db.add_save(save("a", "ida", "t")).unwrap();
    db.add_save(save("b", "idb", "t")).unwrap();
    assert_eq!(load_target(&db, "b"), Some("idb".to_string()));
    db.remove_save("b");
    assert_eq!(load_target(&db, "b"), None);
    assert_eq!(load_target(&db, "c"), None);
}

#[test]
fn listings_are_newest_first() {
    let mut db = GameDB::new();
    db.add_save(save("mid", "1", "2021-06-01 12:00:00")).unwrap();
    db.add_save(save("old", "2", "2020-01-01 00:00:00")).unwrap();
    db.add_save(save("new", "3", "2022-12-31 23:59:59")).unwrap();
    db.add_save(save("t1", "4", "2019-01-01 00:00:00")).unwrap();
    db.add_save(save("t2", "5", "2023-01-01 00:00:00")).unwrap();
    db.remove_save("t1");
    db.remove_save("t2");
    assert_eq!(names(&list_saves(&db)), vec!["new", "mid", "old"]);
    assert_eq!(names(&list_trash(&db)), vec!["t2", "t1"]);
    assert!(list_saves(&GameDB::new()).is_empty());
}

#[test]
fn sort_keeps_equal_timestamps() {
    let v = vec![save("a", "1", "2021"), save("b", "2", "2022"), save("c", "3", "2021")];
    let r = sort_newest_first(v);
    assert_eq!(r.len(), 3);
    assert_eq!(r[0].name, "b");
    let mut rest = names(&r[1..]);
    rest.sort();
    assert_eq!(rest, vec!["a", "c"]);
}

#[test]
fn listing_line_shape() {
    assert_eq!(listing_line(&save("s1", "x", "2021-01-02 03:04:05")), "2021-01-02 03:04:05 - s1");
}

#[test]
fn well_formedness_detects_repeats() {
    let mut db = GameDB::new();
    db.add_save(save("a", "ida", "t")).unwrap();
    db.add_save(save("b", "idb", "t")).unwrap();
    assert!(db.is_well_formed());
    db.trash.push(save("a", "idc", "t"));
    assert!(!db.is_well_formed());
    db.trash.clear();
    db.saves.push(save("c", "idb", "t"));
    assert!(!db.is_well_formed());
}
