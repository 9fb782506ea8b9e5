use wyvern::install::{
    file_is_current, install_target, installers_to_run, local_entry_fits_exec, local_file_data,
    permission_mode, stored_contents, unpacked_action, update_action,
    update_entry_is_dir, update_target, UnpackedAction, UpdateAction,
};

#[test]
fn checksums() {
    assert!(file_is_current(b"123456789", 0xCBF4_3926));
    assert!(!file_is_current(b"123456789", 0));
    assert!(file_is_current(b"", 0));
}

#[test]
fn contents_by_method() {
    let deflated = vec![243u8, 72, 205, 201, 201, 215, 81, 40, 207, 47, 202, 73, 1, 0];
    assert_eq!(stored_contents(deflated.clone(), 8).unwrap(), b"Hello, world".to_vec());
    assert_eq!(stored_contents(deflated.clone(), 0).unwrap(), deflated);
    assert!(stored_contents(vec![0xff, 0xff, 0xff], 8).is_err());
}

fn entry(name_len: u16, extra: &[u8], data: &[u8], sig: u32) -> Vec<u8> {
    let mut b = Vec::new();
    b.extend_from_slice(&sig.to_le_bytes());
    b.extend_from_slice(&[0u8; 22]);
    b.extend_from_slice(&name_len.to_le_bytes());
    b.extend_from_slice(&(extra.len() as u16).to_le_bytes());
    b.extend(std::iter::repeat(b'n').take(name_len as usize));
    b.extend_from_slice(extra);
    b.extend_from_slice(data);
    b
}

#[test]
fn local_entries() {
    let b = entry(5, b"xyz", b"payload", 0x04034b50);
    assert!(local_entry_fits_exec(&b, 5));
    let e = local_file_data(&b, 5);
    assert!(e.signature_ok);
    assert_eq!(e.data, b"payload".to_vec());
    let bad = entry(2, b"", b"d", 0x12345678);
    let e = local_file_data(&bad, 2);
    assert!(!e.signature_ok);
    assert_eq!(e.data, b"d".to_vec());
    assert!(!local_entry_fits_exec(&b[..20], 5));
    assert!(!local_entry_fits_exec(&b, 200));
    assert!(local_entry_fits_exec(&entry(0, b"", b"", 0), 0));
}

#[test]
fn update_targets() {
    assert_eq!(update_target("/g", "data/noarch/game/file.txt"), Some("/g/game/file.txt".to_string()));
    assert_eq!(update_target("/g", "data/noarch/meta/x"), None);
    assert_eq!(update_target("/g", "scripts/postinst"), None);
    assert_eq!(update_target("/g/", "data/noarch/start.sh"), Some("/g/start.sh".to_string()));
}

#[test]
fn install_targets() {
    assert_eq!(install_target("games/x", "data/noarch/game/bin"), Some("games/x/game/bin".to_string()));
    assert_eq!(install_target("games/x", "data/noarch/support/meta.xml"), None);
    assert_eq!(install_target("/inst", "data/noarch/game/a.so"), Some("/inst/game/a.so".to_string()));
    assert_eq!(install_target("/meta/inst", "data/noarch/game/a.so"), Some("/meta/inst/game/a.so".to_string()));
    assert_eq!(install_target("/inst", "data/noarch/scripts/run.sh"), None);
    assert_eq!(unpacked_action("/inst/game/", false), UnpackedAction::CreateDir);
    assert_eq!(unpacked_action("/inst/game", true), UnpackedAction::CreateParentAndDir);
    assert_eq!(unpacked_action("/inst/game/a", false), UnpackedAction::CreateParentAndMove);
}

#[test]
fn update_actions() {
    assert_eq!(update_action(true, true, false, true), UpdateAction::Skip);
    assert_eq!(update_action(true, true, false, false), UpdateAction::Fetch);
    assert_eq!(update_action(false, false, true, false), UpdateAction::Skip);
    assert_eq!(update_action(false, true, true, false), UpdateAction::CreateDir);
    assert_eq!(update_action(false, false, false, false), UpdateAction::Fetch);
    assert!(update_entry_is_dir("data/noarch/game/bin/"));
    assert!(!update_entry_is_dir("data/noarch/game/bin"));
    assert!(!update_entry_is_dir("x.txt"));
    assert!(!update_entry_is_dir(""));
    assert_eq!(update_action(false, false, update_entry_is_dir("data/noarch/game/run"), false), UpdateAction::Fetch);
}

#[test]
fn permissions_and_installers() {
    assert_eq!(permission_mode(0), None);
    assert_eq!(permission_mode(0o100755 << 16), Some(0o100755));
    assert_eq!(permission_mode(0x20), Some(0));
    let names = vec!["setup.exe".to_string(), "setup-1.bin".to_string(), "patch.exe".to_string()];
    assert_eq!(installers_to_run(&names, true), vec!["setup.exe", "patch.exe"]);
    assert_eq!(installers_to_run(&names, false), names);
}
