use wyvern::gameinfo::{gameinfo_path, parse_gameinfo, update_dir, GameInfo, GameInfoError};

#[test]
fn parse_reads_first_and_last_line() {
    let g = GameInfo::parse("Game Name\nsome\n1.2.3 \n").unwrap();
    assert_eq!(g.name, "Game Name");
    assert_eq!(g.version, "1.2.3");
}

#[test]
fn parse_handles_crlf_and_padding() {
    let g = GameInfo::parse("\n  A\r\nmiddle\r\n  B\r\n").unwrap();
    assert_eq!(g.name, "A");
    assert_eq!(g.version, "B");
}

#[test]
fn parse_refuses_one_line() {
    match GameInfo::parse("  only one line  ") {
        Err(GameInfoError::MissingField(f)) => assert_eq!(f, "name"),
        Ok(_) => panic!("accepted a single line"),
    }
}

#[test]
fn parse_refuses_empty() {
    assert!(matches!(GameInfo::parse(" \n\t "), Err(GameInfoError::MissingField(_))));
    assert!(matches!(GameInfo::parse(""), Err(GameInfoError::MissingField(_))));
}

#[test]
fn parse_gameinfo_reads_fields() {
    let g = parse_gameinfo("Stardew Valley\n1.5.4\n");
    assert_eq!(g.name, "Stardew Valley");
    assert_eq!(g.version, "1.5.4");
}

#[test]
fn gameinfo_reads_back_what_was_written() {
    for (name, middle, version) in [("Game", "", "2.0"), ("My Game", "x\ny\n", " 1.0"), ("G", "\n", "v")] {
        let text = format!("{}\n{}{}", name, middle, version);
        let g = GameInfo::parse(&text).unwrap();
        assert_eq!(g.name, name);
        assert_eq!(g.version, version.trim());
    }
}

#[test]
fn update_paths() {
    assert_eq!(update_dir(None), ".");
    assert_eq!(update_dir(Some("/games/x".to_string())), "/games/x");
    assert_eq!(gameinfo_path("/games/x"), "/games/x/gameinfo");
    assert_eq!(gameinfo_path("/games/x/"), "/games/x/gameinfo");
    assert_eq!(gameinfo_path("."), "./gameinfo");
}
