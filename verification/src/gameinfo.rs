use vstd::prelude::*;
use crate::paths::{join_path, path_join};
use crate::text::{chars_of, is_ws, lemma_lines_first, lemma_lines_last, lemma_trim_unchanged, lines, no_newline, split_lines, string_of, trim, trim_chars};

verus! {

/// The name and version that a game's `gameinfo` file records.
pub struct GameInfo {
    pub version: String,
    pub name: String,
}

/// Why a `gameinfo` text could not be read.
#[derive(Debug, PartialEq, Eq)]
pub enum GameInfoError {
    /// A field that the text should hold is missing; the field's name is given.
    MissingField(String),
}

/// What a `gameinfo` text holds: its trimmed text's first line is the name, and its last
/// line, trimmed, the version. A text of fewer than two lines holds neither.
pub open spec fn gameinfo_fields(text: Seq<char>) -> Option<(Seq<char>, Seq<char>)> {
    let ls = lines(trim(text));
    if ls.len() >= 2 {
        Some((ls[0], trim(ls.last())))
    } else {
        None
    }
}

impl GameInfo {
    /// Reads a `gameinfo` text. It is refused, naming the field `name`, when its trimmed
    /// text has fewer than two lines.
    pub fn parse(ginfo: &str) -> (res: Result<GameInfo, GameInfoError>)
        ensures
            match gameinfo_fields(ginfo@) {
                Some((name, version)) => res matches Ok(g) && g.name@ == name && g.version@
                    == version,
                None => res matches Err(GameInfoError::MissingField(f)) && f@ == "name"@,
            },
    {
        let chars = chars_of(ginfo);
        let trimmed = trim_chars(chars.as_slice());
        let ls = split_lines(trimmed.as_slice());
        proof {
            assert(ls@.map_values(|l: Vec<char>| l@).len() == ls@.len());
        }
        if ls.len() >= 2 {
            let ghost view = ls@.map_values(|l: Vec<char>| l@);
            assert(view[0] == ls@[0]@);
            assert(view[view.len() - 1] == ls@[ls@.len() - 1]@);
            let name = string_of(ls[0].as_slice());
            let version = string_of(trim_chars(ls[ls.len() - 1].as_slice()).as_slice());
            Ok(GameInfo { name, version })
        } else {
            Err(GameInfoError::MissingField(String::from_str("name")))
        }
    }
}

/// Reads a `gameinfo` text that holds a name and a version.
pub fn parse_gameinfo(ginfo: &str) -> (res: GameInfo)
    requires
        gameinfo_fields(ginfo@) is Some,
    ensures
        res.name@ == gameinfo_fields(ginfo@).unwrap().0,
        res.version@ == gameinfo_fields(ginfo@).unwrap().1,
{
    match GameInfo::parse(ginfo) {
        Ok(g) => g,
        Err(_) => {
            proof {
                assert(false);
            }
            GameInfo { name: String::new(), version: String::new() }
        },
    }
}


/// A `gameinfo` text whose first line is a name and whose last line is a version, whatever
/// lines stand between them, is read back as that name and that version (trimmed).
pub proof fn law_gameinfo_reads_back(name: Seq<char>, middle: Seq<char>, version: Seq<char>)
    requires
        name.len() > 0,
        !is_ws(name[0]),
        no_newline(name),
        name.last() != '\r',
        version.len() > 0,
        !is_ws(version.last()),
        no_newline(version),
        middle.len() == 0 || middle.last() == '\n',
    ensures
        gameinfo_fields(name + seq!['\n'] + middle + version) == Some((name, trim(version))),
{
    let rest = middle + version;
    let text = name + seq!['\n'] + rest;
    assert(text =~= name + seq!['\n'] + middle + version);
    assert(text[0] == name[0]);
    assert(text.last() == version.last());
    lemma_trim_unchanged(text);
    lemma_lines_first(name, rest);
    assert(rest.skip(rest.len() - version.len()) =~= version);
    if middle.len() > 0 {
        assert(rest[rest.len() - version.len() - 1] == middle.last());
    }
    lemma_lines_last(rest, version);
    let ls = lines(text);
    assert(ls[0] == name);
    assert(ls.last() == lines(rest).last());
}

/// The game directory that `update` works on: the one given, or the current directory.
pub fn update_dir(path: Option<String>) -> (dir: String)
    ensures
        dir@ == match path {
            Some(p) => p@,
            None => "."@,
        },
{
    match path {
        Some(p) => p,
        None => String::from_str("."),
    }
}

/// The `gameinfo` file of a game directory.
pub fn gameinfo_path(game_dir: &str) -> (p: String)
    ensures
        p@ == path_join(game_dir@, "gameinfo"@),
{
    string_of(join_path(chars_of(game_dir).as_slice(), chars_of("gameinfo").as_slice()).as_slice())
}

} // verus!
