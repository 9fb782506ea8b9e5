use wyvern::args::{
    download_target, prepare_download, search_choice, DownloadOptions, DownloadTarget, SearchChoice,
    ShortcutOptions,
};
use wyvern::connect::{connect_game_shown, connect_line, hidden_summary, ConnectGameStatus, ConnectListing};
use wyvern::interactive::{
    connect_args, connect_item, connect_labels, download_args, extras_args, list_args, menu_item,
    menu_labels, ConnectItem, MenuItem,
};
use wyvern::shortcuts::{desktop_shortcut, desktop_shortcut_path, menu_shortcut_path};

fn options() -> DownloadOptions {
    DownloadOptions {
        id: None,
        search: None,
        install_after: None,
        windows_auto: false,
        windows_force: false,
        first: false,
        all: false,
        dlc: false,
        resume: false,
        original: false,
        output: None,
        preserve_extension: false,
        external_zip: false,
    }
}

#[test]
fn shortcut_flags() {
    let mut s = ShortcutOptions { desktop: false, menu: false, shortcuts: true };
    s.resolve();
    assert!(s.desktop && s.menu && s.shortcuts);
    let mut s = ShortcutOptions { desktop: true, menu: false, shortcuts: false };
    s.resolve();
    assert!(s.desktop && !s.menu);
    let mut o = options();
    let mut s = ShortcutOptions { desktop: false, menu: false, shortcuts: true };
    prepare_download(&mut o, &mut s);
    assert!(o.original);
    assert!(s.menu);
}

#[test]
fn download_targets() {
    let mut o = options();
    assert_eq!(download_target(&o), DownloadTarget::Nothing);
    o.all = true;
    assert_eq!(download_target(&o), DownloadTarget::All);
    o.id = Some(5);
    assert_eq!(download_target(&o), DownloadTarget::Id(5));
    o.search = Some("witcher".to_string());
    assert_eq!(download_target(&o), DownloadTarget::Search("witcher".to_string()));
}

#[test]
fn desktop_entries() {
    let text = desktop_shortcut("Game", "/games/g");
    assert_eq!(
        text,
        "[Desktop Entry]\nEncoding=UTF-8\nValue=1.0\nType=Application\nName=Game\nGenericName=Game\nComment=Game\nIcon=/games/g/support/icon.png\nExec=\"/games/g/start.sh\" \"\"\nCategories=Game;\nPath=/games/g"
    );
    assert_eq!(menu_shortcut_path("/home/u", "Game"), "/home/u/.local/share/applications/gog_com-Game_1.desktop");
    assert_eq!(desktop_shortcut_path("/home/u/", "Game"), "/home/u/Desktop/gog_com-Game_1.desktop");
}

#[test]
fn menus() {
    assert_eq!(menu_labels(), vec!["List", "Download", "Extras", "Connect"]);
    assert_eq!(menu_item(0), MenuItem::List);
    assert_eq!(menu_item(3), MenuItem::Connect);
    assert_eq!(connect_labels(), vec!["Claim", "List", "Quit"]);
    assert_eq!(connect_item(2), ConnectItem::Quit);
    assert_eq!(list_args(), vec!["wyvern", "list"]);
    assert_eq!(download_args(1207658924, None), vec!["wyvern", "download", "--id", "1207658924"]);
    assert_eq!(
        download_args(3, Some("My Game")),
        vec!["wyvern", "download", "--id", "3", "--install", "My Game"]
    );
    assert_eq!(extras_args("My Game"), vec!["wyvern", "extras", "--first", "My Game"]);
    assert_eq!(connect_args(ConnectItem::Claim), Some(vec!["wyvern".to_string(), "connect".to_string(), "claim".to_string()]));
    assert_eq!(connect_args(ConnectItem::List), Some(vec!["wyvern".to_string(), "connect".to_string(), "list".to_string()]));
    assert_eq!(connect_args(ConnectItem::Quit), None);
}

#[test]
fn connect_listing() {
    assert!(connect_game_shown(false, ConnectGameStatus::Imported));
    assert!(!connect_game_shown(true, ConnectGameStatus::Imported));
    assert!(connect_game_shown(true, ConnectGameStatus::ReadyToLink));
    assert_eq!(connect_line("Game", ConnectGameStatus::ReadyToLink, false), "Game - ReadyToLink");
    assert_eq!(connect_line("Game", ConnectGameStatus::Imported, true), "Game");
    let mut l = ConnectListing::new();
    l.record(Some("A".to_string()), ConnectGameStatus::Unavailable);
    l.record(None, ConnectGameStatus::Imported);
    l.record(None, ConnectGameStatus::Imported);
    assert_eq!(l.games.len(), 1);
    assert_eq!(l.hidden, 2);
    assert_eq!(hidden_summary(l.hidden), "2 items not shown due to options");
}

#[test]
fn search_choices() {
    assert_eq!(search_choice(true, 3), SearchChoice::First);
    assert_eq!(search_choice(false, 3), SearchChoice::Ask);
    assert_eq!(search_choice(false, 0), SearchChoice::NotFound);
}
