use wyvern::args::DownloadOptions;
use wyvern::downloads::{
    all_downloads, choose_platform, download_target_name, downloads_for, extra_by_slug, extra_url,
    extras_folder, extras_folder_name, extras_game, file_start, ExtrasGame, next_candidate, progress_message, selected_extras,
    server_file_name, target_file_name, temp_name, FileStart, PlatformChoice,
};
use wyvern::library::{Download, Downloads, GameDetails};

fn dl(name: &str, url: &str) -> Download {
    Download {
        manual_url: url.to_string(),
        downloader_url: None,
        name: name.to_string(),
        version: Some("1.0".to_string()),
        date: "".to_string(),
        size: "1 MB".to_string(),
    }
}

fn game(title: &str, linux: Option<Vec<Download>>, windows: Option<Vec<Download>>, dlcs: Vec<GameDetails>) -> GameDetails {
    GameDetails { title: title.to_string(), downloads: Downloads { windows, mac: None, linux }, extras: vec![], dlcs }
}

fn options() -> DownloadOptions {
    DownloadOptions {
        id: None,
        search: None,
        install_after: None,
        windows_auto: false,
        windows_force: false,
        first: false,
        all: false,
        dlc: false,
        resume: false,
        original: false,
        output: None,
        preserve_extension: false,
        external_zip: false,
    }
}

fn sample() -> GameDetails {
    game(
        "Game",
        Some(vec![dl("g1", "/u/g1"), dl("g2", "/u/g2")]),
        Some(vec![dl("w1", "/u/w1")]),
        vec![
            game("DLC One", Some(vec![dl("x", "/u/x")]), Some(vec![dl("wx", "/u/wx")]), vec![]),
            game("DLC Two", Some(vec![dl("y", "/u/y"), dl("z", "/u/z")]), Some(vec![]), vec![]),
        ],
    )
}

#[test]
fn all_downloads_renames_dlc_builds() {
    let all = all_downloads(sample(), true);
    let names: Vec<&str> = all.iter().map(|d| d.name.as_str()).collect();
    assert_eq!(names, vec!["g1", "g2", "DLC One", "DLC Two", "DLC Two"]);
    let urls: Vec<&str> = all.iter().map(|d| d.manual_url.as_str()).collect();
    assert_eq!(urls, vec!["/u/g1", "/u/g2", "/u/x", "/u/y", "/u/z"]);
    assert_eq!(all[2].version, Some("1.0".to_string()));
    let win = all_downloads(sample(), false);
    let names: Vec<&str> = win.iter().map(|d| d.name.as_str()).collect();
    assert_eq!(names, vec!["w1", "DLC One"]);
}

#[test]
fn downloads_without_dlc() {
    let d = downloads_for(sample(), true, false);
    let names: Vec<&str> = d.iter().map(|d| d.name.as_str()).collect();
    assert_eq!(names, vec!["g1", "g2"]);
    assert_eq!(downloads_for(sample(), true, true).len(), 5);
}

#[test]
fn platform_choice() {
    let mut o = options();
    assert_eq!(choose_platform(true, &o), PlatformChoice::Linux);
    assert_eq!(choose_platform(false, &o), PlatformChoice::AskForWindows);
    o.windows_auto = true;
    assert_eq!(choose_platform(false, &o), PlatformChoice::Windows);
    assert_eq!(choose_platform(true, &o), PlatformChoice::Linux);
    o.windows_force = true;
    assert_eq!(choose_platform(true, &o), PlatformChoice::Windows);
}

#[test]
fn server_names() {
    assert_eq!(server_file_name("/downloads/game/setup_1.0.sh"), "setup_1.0.sh");
    assert_eq!(server_file_name("/a/"), "");
    assert_eq!(server_file_name("plain"), "plain");
}

#[test]
fn target_names() {
    let mut o = options();
    assert_eq!(download_target_name("Game Installer", "setup_game_1.0.sh", &o, false), "Game Installer");
    o.preserve_extension = true;
    assert_eq!(download_target_name("Game Installer", "setup_game_1.0.sh", &o, false), "Game Installer");
    o.original = true;
    assert_eq!(download_target_name("Game Installer", "game.sh", &o, false), "game.sh");
    o.preserve_extension = false;
    assert_eq!(download_target_name("Game Installer", "setup_game_1.0.sh", &o, false), "setup_game_1.0.sh");
    o.original = false;
    o.output = Some("/out".to_string());
    assert_eq!(download_target_name("Game Installer", "setup.sh", &o, true), "/out/Game Installer");
    assert_eq!(download_target_name("Game Installer", "setup.sh", &o, false), "/out");
    o.preserve_extension = true;
    assert_eq!(download_target_name("Game Installer", "setup.sh", &o, false), "/out.sh");
    assert_eq!(download_target_name("Game Installer", "noext", &o, false), "/out");
    assert_eq!(download_target_name("Game Installer", ".bashrc", &o, false), "/out");
    assert_eq!(download_target_name("Game Installer", "a.tar.gz", &o, false), "/out.gz");
    assert_eq!(download_target_name("Game Installer", "dir.d/file", &o, false), "/out");
}

#[test]
fn collisions() {
    assert_eq!(target_file_name("dir/game.sh"), Some("game.sh".to_string()));
    assert_eq!(target_file_name("/"), None);
    assert_eq!(next_candidate("dir/game.sh", "game.sh", 1), "dir/game.sh_1");
    assert_eq!(next_candidate("dir/game.sh", "game.sh", 2), "dir/game.sh_2");
    assert_eq!(next_candidate("dir/game.sh", "game.sh", 12), "dir/game.sh_12");
    assert_eq!(next_candidate("o", "o", 1), "o_1");
    assert_eq!(next_candidate("o", "o", 2), "o_2");
    assert_eq!(temp_name("dir/game.sh"), "dir/game.sh.tmp");
}

#[test]
fn file_starts() {
    assert_eq!(file_start(true, Some(50), 100, false), FileStart::Resume(50));
    assert_eq!(file_start(true, Some(0), 100, true), FileStart::Resume(0));
    assert_eq!(file_start(true, Some(100), 100, false), FileStart::Skip);
    assert_eq!(file_start(true, Some(150), 100, false), FileStart::Skip);
    assert_eq!(file_start(true, None, 100, true), FileStart::Fresh);
    assert_eq!(file_start(false, Some(50), 100, true), FileStart::Exists);
    assert_eq!(file_start(false, None, 100, false), FileStart::Fresh);
}

#[test]
fn progress_messages() {
    assert_eq!(progress_message(false, "x.sh", 0, 3), "Downloading x.sh, 1 of 3");
    assert_eq!(progress_message(true, "y", 9, 10), "Resuming y, 10 of 10");
}

#[test]
fn extras() {
    assert_eq!(extras_folder_name("Game"), "Game Extras");
    assert_eq!(extra_url("/downloads/game/1"), "https://gog.com/downloads/game/1");
    assert_eq!(selected_extras(4, true, &vec![]), vec![0, 1, 2, 3]);
    assert_eq!(selected_extras(4, false, &vec![3, 1, 7]), vec![1, 3]);
    assert_eq!(selected_extras(0, true, &vec![0]), Vec::<usize>::new());
}

#[test]
fn extras_options() {
    assert_eq!(extras_game(Some(7), Some("x".to_string())), ExtrasGame::Id(7));
    assert_eq!(extras_game(None, Some("x".to_string())), ExtrasGame::Search("x".to_string()));
    assert_eq!(extras_game(None, None), ExtrasGame::Nothing);
    assert_eq!(extras_folder(Some("out".to_string()), "Game"), "out");
    assert_eq!(extras_folder(None, "Game"), "Game Extras");
    let names = vec!["manual".to_string(), "soundtrack".to_string(), "manual".to_string()];
    assert_eq!(extra_by_slug(&names, &"manual".to_string()), Some(0));
    assert_eq!(extra_by_slug(&names, &"soundtrack".to_string()), Some(1));
    assert_eq!(extra_by_slug(&names, &"wallpaper".to_string()), None);
}
