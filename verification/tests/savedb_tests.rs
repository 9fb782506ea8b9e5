use wyvern::savedb::{SaveDB, SaveInfo, SaveType};

fn info(id: i64, path: &str) -> SaveInfo {
    SaveInfo { identifier: SaveType::GOG(id), path: path.to_string() }
}

#[test]
fn read_after_write() {
    let mut db = SaveDB::new();
    assert_eq!(db.len(), 0);
    assert!(db.insert("1".to_string(), info(1, "/a")).is_none());
    assert!(db.insert("2".to_string(), info(2, "/b")).is_none());
    assert!(db.contains_key(&"1".to_string()));
    assert!(!db.contains_key(&"3".to_string()));
    assert_eq!(db.get(&"1".to_string()).unwrap().path, "/a");
    assert_eq!(db.get(&"2".to_string()).unwrap().identifier, SaveType::GOG(2));
    assert!(db.get(&"3".to_string()).is_none());
    assert_eq!(db.len(), 2);
}

#[test]
fn insert_replaces_and_hands_back() {
    let mut db = SaveDB::default();
    db.insert("1".to_string(), info(1, "/old"));
    db.insert("9".to_string(), info(9, "/other"));
    let old = db.insert("1".to_string(), info(1, "/new")).unwrap();
    assert_eq!(old.path, "/old");
    assert_eq!(db.get(&"1".to_string()).unwrap().path, "/new");
    assert_eq!(db.get(&"9".to_string()).unwrap().path, "/other");
    assert_eq!(db.len(), 2);
}

#[test]
fn from_entries_later_wins() {
    let db = SaveDB::from_entries(vec![
        ("1".to_string(), info(1, "/first")),
        ("k".to_string(), SaveInfo { identifier: SaveType::Other("k".to_string()), path: "/k".to_string() }),
        ("1".to_string(), info(1, "/second")),
    ]);
    assert_eq!(db.len(), 2);
    assert_eq!(db.get(&"1".to_string()).unwrap().path, "/second");
    assert_eq!(db.get(&"k".to_string()).unwrap().identifier, SaveType::Other("k".to_string()));
}

#[test]
fn rebuilds_from_entries() {
    let mut db = SaveDB::new();
    db.insert("5".to_string(), info(5, "/five"));
    db.insert("6".to_string(), info(6, "/six"));
    let copy: Vec<(String, SaveInfo)> = db
        .entries()
        .iter()
        .map(|(k, v)| {
            let id = match &v.identifier {
                SaveType::GOG(id) => SaveType::GOG(*id),
                SaveType::Other(o) => SaveType::Other(o.clone()),
            };
            (k.clone(), SaveInfo { identifier: id, path: v.path.clone() })
        })
        .collect();
    let again = SaveDB::from_entries(copy);
    assert_eq!(again.len(), 2);
    assert_eq!(again.get(&"5".to_string()).unwrap().path, "/five");
    assert_eq!(again.get(&"6".to_string()).unwrap().path, "/six");
}
