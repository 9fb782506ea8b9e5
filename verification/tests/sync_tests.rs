use wyvern::savedb::SaveType;
use wyvern::sync::{
    answer_is_no, answer_is_yes, expand_home, gog_folder_name, parent_dir, push_rsync_args,
    push_source, save_folder_name, save_key, savedb_path, sync_decision, sync_dir,
    sync_rsync_args, synced_saves_folder, join, SyncDecision,
};

#[test]
fn save_keys_are_decimal_ids() {
    assert_eq!(save_key(1207658924), "1207658924");
    assert_eq!(save_key(-5), "-5");
    assert_eq!(save_key(0), "0");
    assert_ne!(save_key(12), save_key(-12));
    assert_ne!(save_key(1), save_key(10));
}

#[test]
fn folder_names() {
    assert_eq!(gog_folder_name(42), "gog_42");
    assert_eq!(save_folder_name(&"42".to_string(), &SaveType::GOG(42)), "gog_42");
    assert_eq!(save_folder_name(&"mine".to_string(), &SaveType::Other("x".to_string())), "mine");
}

#[test]
fn home_expansion() {
    assert_eq!(expand_home("~/saves/~x", "/home/u"), "/home/u/saves//home/ux");
    assert_eq!(expand_home("/abs/path", "/home/u"), "/abs/path");
    let once = expand_home("~/a~", "/h");
    assert_eq!(expand_home(&once, "/h"), once);
    assert!(!once.contains('~'));
}

#[test]
fn database_paths() {
    assert_eq!(savedb_path("/sync"), "/sync/savedb.json");
    assert_eq!(savedb_path("/sync/"), "/sync/savedb.json");
    assert_eq!(synced_saves_folder("/sync/", 12), "/sync/saves/gog_12");
    assert_eq!(sync_dir(Some("a".to_string()), Some("b".to_string())), Some("a".to_string()));
    assert_eq!(sync_dir(None, Some("b".to_string())), Some("b".to_string()));
    assert_eq!(sync_dir(None, None), None);
}

#[test]
fn sync_decisions() {
    assert_eq!(sync_decision(false, 0, None, false, false), SyncDecision::MissingSource);
    assert_eq!(sync_decision(true, 10, None, false, false), SyncDecision::Proceed);
    assert_eq!(sync_decision(true, 10, Some(5), false, false), SyncDecision::Proceed);
    assert_eq!(sync_decision(true, 10, Some(10), false, false), SyncDecision::Proceed);
    assert_eq!(sync_decision(true, 10, Some(20), false, false), SyncDecision::Ask);
    assert_eq!(sync_decision(true, 10, Some(20), true, false), SyncDecision::RefuseOlder);
    assert_eq!(sync_decision(true, 10, Some(20), true, true), SyncDecision::Proceed);
    assert_eq!(sync_decision(true, -10, Some(-5), false, false), SyncDecision::Ask);
}

#[test]
fn answers() {
    assert!(answer_is_yes(" y\n"));
    assert!(answer_is_yes("Y"));
    assert!(!answer_is_yes("yes"));
    assert!(!answer_is_yes(""));
    assert!(answer_is_no("n"));
    assert!(answer_is_no("N"));
    assert!(answer_is_no("n\n"));
    assert!(answer_is_no(" N \r\n"));
    assert!(!answer_is_no("\n"));
    assert!(!answer_is_no("y\n"));
    assert!(!answer_is_no("no"));
}

#[test]
fn rsync_arguments() {
    assert_eq!(
        sync_rsync_args("/sync/saves/gog_1", "/home/u/saves"),
        vec!["/sync/saves/gog_1/", "/home/u/saves/", "-a", "--force"]
    );
    assert_eq!(push_rsync_args("/h/s/", "/sync/saves/gog_1"), vec!["/h/s/", "/sync/saves/gog_1", "-a"]);
    assert_eq!(push_source("~/s", true, "/h"), "/h/s/");
    assert_eq!(push_source("~/s", false, "/h"), "/h/s");
}

#[test]
fn parents() {
    assert_eq!(parent_dir("/a/b"), Some("/a".to_string()));
    assert_eq!(parent_dir("a"), Some("".to_string()));
    assert_eq!(parent_dir("/"), None);
}

#[test]
fn joining_paths() {
    assert_eq!(join("a", "b"), "a/b");
    assert_eq!(join("a/", "b"), "a/b");
    assert_eq!(join("", "b"), "b");
    assert_eq!(join("a", "/b"), "/b");
    for (base, rel) in [("x/y", "z"), ("/", "etc"), ("x//", "q/r"), ("", "")] {
        assert_eq!(join(base, rel), std::path::Path::new(base).join(rel).to_str().unwrap());
    }
}
