use wyvern::library::{Downloads, Game, GameDetails, GamesList, ProductDetails};

fn product(title: &str, id: i64) -> Game {
    Game::ProductInfo(ProductDetails { title: title.to_string(), id })
}

fn details(title: &str) -> GameDetails {
    GameDetails {
        title: title.to_string(),
        downloads: Downloads { windows: None, mac: None, linux: None },
        extras: vec![],
        dlcs: vec![],
    }
}

#[test]
fn titles_and_ids() {
    assert_eq!(product("A", 3).title(), "A");
    assert_eq!(product("A", 3).id(), 3);
    let g = Game::GameInfo(details("Owned"), 77);
    assert_eq!(g.title(), "Owned");
    assert_eq!(g.id(), 77);
}

#[test]
fn sort_is_stable_by_title() {
    let mut list = GamesList {
        games: vec![product("b", 1), product("a", 2), product("b", 3), product("A", 4), Game::GameInfo(details("a"), 5)],
    };
    list.sort_by_title();
    let got: Vec<(String, i64)> = list.games.iter().map(|g| (g.title(), g.id())).collect();
    assert_eq!(
        got,
        vec![
            ("A".to_string(), 4),
            ("a".to_string(), 2),
            ("a".to_string(), 5),
            ("b".to_string(), 1),
            ("b".to_string(), 3)
        ]
    );
}

#[test]
fn sort_matches_std_stable_sort() {
    let titles = ["Zork", "zork", "Äpfel", "apple", "", "Zork", "a", "Z"];
    let mut list = GamesList { games: titles.iter().enumerate().map(|(i, t)| product(t, i as i64)).collect() };
    let mut want: Vec<(String, i64)> = titles.iter().enumerate().map(|(i, t)| (t.to_string(), i as i64)).collect();
    want.sort_by(|a, b| a.0.partial_cmp(&b.0).unwrap());
    list.sort_by_title();
    let got: Vec<(String, i64)> = list.games.iter().map(|g| (g.title(), g.id())).collect();
    assert_eq!(got, want);
}

#[test]
fn empty_list_sorts() {
    let mut list = GamesList { games: vec![] };
    list.sort_by_title();
    assert!(list.games.is_empty());
    assert_eq!(list.listing(), vec!["Title - GameID"]);
}

#[test]
fn listing_lines() {
    let list = GamesList { games: vec![product("Game", 12), Game::GameInfo(details("Other"), -1)] };
    assert_eq!(list.listing(), vec!["Title - GameID", "Game - 12", "Other - -1"]);
}

#[test]
fn sorting_a_sorted_list_changes_nothing() {
    let mut list = GamesList { games: vec![product("a", 1), product("a", 0), product("b", 2), product("c", 9)] };
    list.sort_by_title();
    let got: Vec<(String, i64)> = list.games.iter().map(|g| (g.title(), g.id())).collect();
    assert_eq!(
        got,
        vec![("a".to_string(), 1), ("a".to_string(), 0), ("b".to_string(), 2), ("c".to_string(), 9)]
    );
}
