use vstd::prelude::*;
use crate::paths::{join_path, parent_of, path_join, path_parent};
use crate::savedb::SaveType;
use crate::text::{
    chars_of, i64_decimal, int_decimal, lemma_int_decimal_injective, occurs_at, push_all,
    law_replace_all, replace_all, replace_chars, string_of, trim, trim_chars,
};

verus! {

/// The key under which the saves of the GOG game `id` are recorded: its decimal id.
pub fn save_key(id: i64) -> (key: String)
    ensures
        key@ == int_decimal(id as int),
{
    string_of(i64_decimal(id).as_slice())
}

/// The name of the folder that holds the synced saves of the GOG game `id`.
pub open spec fn gog_folder(id: int) -> Seq<char> {
    "gog_"@ + int_decimal(id)
}

/// `gog_` followed by the decimal id.
pub fn gog_folder_name(id: i64) -> (name: String)
    ensures
        name@ == gog_folder(id as int),
{
    let mut v = chars_of("gog_");
    push_all(&mut v, i64_decimal(id).as_slice());
    string_of(v.as_slice())
}

/// The folder under `saves` that holds the synced saves of an entry: `gog_<id>` for a GOG
/// game, the entry's key for anything else.
pub fn save_folder_name(key: &String, identifier: &SaveType) -> (name: String)
    ensures
        name@ == match identifier {
            SaveType::GOG(id) => gog_folder(*id as int),
            SaveType::Other(_) => key@,
        },
{
    match identifier {
        SaveType::GOG(id) => gog_folder_name(*id),
        SaveType::Other(_) => key.clone(),
    }
}

/// `path` with every `~` replaced by the home directory `home`.
pub open spec fn expand_home_spec(path: Seq<char>, home: Seq<char>) -> Seq<char> {
    replace_all(path, seq!['~'], home)
}

/// Replaces every `~` in `path` with the home directory `home`.
pub fn expand_home(path: &str, home: &str) -> (res: String)
    ensures
        res@ == expand_home_spec(path@, home@),
{
    let p = chars_of(path);
    let h = chars_of(home);
    let mut tilde: Vec<char> = Vec::new();
    tilde.push('~');
    assert(tilde@ =~= seq!['~']);
    string_of(replace_chars(p.as_slice(), tilde.as_slice(), h.as_slice()).as_slice())
}

/// The path `rel` under the directory `base`.
pub fn join(base: &str, rel: &str) -> (res: String)
    ensures
        res@ == path_join(base@, rel@),
{
    let b = chars_of(base);
    let r = chars_of(rel);
    string_of(join_path(b.as_slice(), r.as_slice()).as_slice())
}

/// The database file of a sync directory: `savedb.json` in it.
pub fn savedb_path(dir: &str) -> (res: String)
    ensures
        res@ == path_join(dir@, "savedb.json"@),
{
    join(dir, "savedb.json")
}

/// The folder of a sync directory that holds the saves of the GOG game `id`.
pub fn synced_saves_folder(dir: &str, id: i64) -> (res: String)
    ensures
        res@ == path_join(path_join(dir@, "saves"@), gog_folder(id as int)),
{
    let saves = join(dir, "saves");
    let folder = gog_folder_name(id);
    join(saves.as_str(), folder.as_str())
}

/// The directory that holds the save database: the one given on the command line, else the
/// configured sync directory; `None` when neither is set.
pub fn sync_dir(given: Option<String>, configured: Option<String>) -> (res: Option<String>)
    ensures
        res == (match given {
            Some(g) => Some(g),
            None => configured,
        }),
{
    match given {
        Some(g) => Some(g),
        None => configured,
    }
}

/// What a sync does after comparing the two locations.
#[derive(Debug, PartialEq, Eq)]
pub enum SyncDecision {
    /// There is nothing at the source: nothing is synced.
    MissingSource,
    /// The destination is newer and older saves are refused: nothing is synced.
    RefuseOlder,
    /// The destination is newer: the user is asked whether to go on.
    Ask,
    /// The files are copied.
    Proceed,
}

/// The decision `sync` takes: with no source nothing happens; a destination modified after
/// the source stops the sync, or asks the user, unless `force` is set.
/// Times are nanoseconds since the Unix epoch; `dest_modified` is `None` when nothing is at
/// the destination yet.
pub open spec fn sync_outcome(source_exists: bool, source_modified: int, dest_modified: Option<int>,
    ignore_older: bool, force: bool) -> SyncDecision {
    if !source_exists {
        SyncDecision::MissingSource
    } else {
        match dest_modified {
            Some(t) => if t > source_modified && !force {
                if ignore_older {
                    SyncDecision::RefuseOlder
                } else {
                    SyncDecision::Ask
                }
            } else {
                SyncDecision::Proceed
            },
            None => SyncDecision::Proceed,
        }
    }
}

/// Takes the decision of `sync` (see `sync_outcome`).
pub fn sync_decision(source_exists: bool, source_modified: i128, dest_modified: Option<i128>,
    ignore_older: bool, force: bool) -> (d: SyncDecision)
    ensures
        d == sync_outcome(
            source_exists,
            source_modified as int,
            match dest_modified {
                Some(t) => Some(t as int),
                None => None,
            },
            ignore_older,
            force,
        ),
{
    if !source_exists {
        return SyncDecision::MissingSource;
    }
    match dest_modified {
        Some(t) => {
            if t > source_modified && !force {
                if ignore_older {
                    SyncDecision::RefuseOlder
                } else {
                    SyncDecision::Ask
                }
            } else {
                SyncDecision::Proceed
            }
        },
        None => SyncDecision::Proceed,
    }
}

/// Saves at the destination that are newer than the source are never overwritten without
/// `force` or the user's consent: the sync then stops or asks.
pub proof fn law_newer_saves_not_overwritten(source_modified: int, dest_modified: int, ignore_older: bool)
    requires
        dest_modified > source_modified,
    ensures
        sync_outcome(true, source_modified, Some(dest_modified), ignore_older, false) != SyncDecision::Proceed,
        ignore_older ==> sync_outcome(true, source_modified, Some(dest_modified), ignore_older, false)
            == SyncDecision::RefuseOlder,
{
}

/// A sync of an existing source goes ahead whenever the destination is not newer than the
/// source, whatever the flags; `force` makes it go ahead always. `ignore_older` changes
/// nothing but the outcome for newer destination saves: the question is replaced by a
/// refusal.
pub proof fn law_sync_proceeds_unless_destination_newer(
    source_modified: int,
    dest_modified: Option<int>,
    ignore_older: bool,
    force: bool,
)
    ensures
        (dest_modified is None || dest_modified.unwrap() <= source_modified) ==> sync_outcome(
            true,
            source_modified,
            dest_modified,
            ignore_older,
            force,
        ) == SyncDecision::Proceed,
        force ==> sync_outcome(true, source_modified, dest_modified, ignore_older, force)
            == SyncDecision::Proceed,
        sync_outcome(false, source_modified, dest_modified, ignore_older, force)
            == SyncDecision::MissingSource,
        (sync_outcome(true, source_modified, dest_modified, true, force) == SyncDecision::RefuseOlder)
            == (sync_outcome(true, source_modified, dest_modified, false, force) == SyncDecision::Ask),
        (sync_outcome(true, source_modified, dest_modified, true, force) == SyncDecision::Proceed)
            == (sync_outcome(true, source_modified, dest_modified, false, force) == SyncDecision::Proceed),
        sync_outcome(true, source_modified, dest_modified, true, force) != SyncDecision::Ask,
        sync_outcome(true, source_modified, dest_modified, false, force) != SyncDecision::RefuseOlder,
        sync_outcome(true, source_modified, dest_modified, ignore_older, force) != SyncDecision::MissingSource,
{
}

/// Distinct games get distinct keys in the save database, and distinct folders of synced
/// saves.
pub proof fn law_save_keys_distinct(a: i64, b: i64)
    requires
        a != b,
    ensures
        int_decimal(a as int) != int_decimal(b as int),
        gog_folder(a as int) != gog_folder(b as int),
{
    if int_decimal(a as int) == int_decimal(b as int) {
        lemma_int_decimal_injective(a as int, b as int);
    }
    if gog_folder(a as int) == gog_folder(b as int) {
        reveal_strlit("gog_");
        assert("gog_"@.len() == 4);
        assert(gog_folder(a as int).skip(4) =~= int_decimal(a as int));
        assert(gog_folder(b as int).skip(4) =~= int_decimal(b as int));
    }
}

proof fn lemma_tilde_at(s: Seq<char>)
    requires
        s.len() > 0,
    ensures
        occurs_at(s, seq!['~'], 0) == (s[0] == '~'),
{
    if s[0] == '~' {
        assert(s.subrange(0, 1) =~= seq!['~']);
    } else {
        assert(s.subrange(0, 1)[0] == s[0]);
    }
}

/// `s` holds no `~`.
pub open spec fn tilde_free(s: Seq<char>) -> bool {
    forall|i: int| 0 <= i < s.len() ==> #[trigger] s[i] != '~'
}

proof fn lemma_expand_home(s: Seq<char>, home: Seq<char>)
    requires
        tilde_free(home),
    ensures
        tilde_free(expand_home_spec(s, home)),
        tilde_free(s) ==> expand_home_spec(s, home) == s,
    decreases s.len(),
{
    if s.len() > 0 {
        lemma_tilde_at(s);
        let r = expand_home_spec(s, home);
        if s[0] == '~' {
            lemma_expand_home(s.skip(1), home);
            let t = expand_home_spec(s.skip(1), home);
            assert(r == home + t);
            assert forall|i: int| 0 <= i < r.len() implies #[trigger] r[i] != '~' by {
                if i < home.len() {
                    assert(r[i] == home[i]);
                } else {
                    assert(r[i] == t[i - home.len()]);
                }
            }
        } else {
            let rest = s.drop_first();
            lemma_expand_home(rest, home);
            let t = expand_home_spec(rest, home);
            assert(r == seq![s[0]] + t);
            assert forall|i: int| 0 <= i < r.len() implies #[trigger] r[i] != '~' by {
                if i > 0 {
                    assert(r[i] == t[i - 1]);
                }
            }
            if tilde_free(s) {
                assert forall|i: int| 0 <= i < rest.len() implies #[trigger] rest[i] != '~' by {
                    assert(rest[i] == s[i + 1]);
                }
                assert(seq![s[0]] + rest =~= s);
            }
        }
    }
}

/// Expanding the home directory puts it in place of a leading `~`, and leaves a path
/// without `~` as it is.
pub proof fn law_expand_home_replaces_tilde(path: Seq<char>, home: Seq<char>)
    ensures
        expand_home_spec(seq!['~'] + path, home) == home + expand_home_spec(path, home),
        (forall|i: int| 0 <= i < path.len() ==> #[trigger] path[i] != '~') ==> expand_home_spec(path, home) == path,
{
    law_replace_all(path, seq!['~'], home);
    if forall|i: int| 0 <= i < path.len() ==> #[trigger] path[i] != '~' {
        assert forall|i: int| !occurs_at(path, seq!['~'], i) by {
            if occurs_at(path, seq!['~'], i) {
                assert(path.subrange(i, i + 1)[0] == path[i]);
            }
        }
    }
}

/// Expanding the home directory, when it holds no `~`, leaves no `~` behind, so expanding
/// again changes nothing.
pub proof fn law_expand_home_complete(path: Seq<char>, home: Seq<char>)
    requires
        tilde_free(home),
    ensures
        tilde_free(expand_home_spec(path, home)),
        expand_home_spec(expand_home_spec(path, home), home) == expand_home_spec(path, home),
{
    lemma_expand_home(path, home);
    lemma_expand_home(expand_home_spec(path, home), home);
}

/// Whether an answer to a yes/no question (default no) is a yes: `y` or `Y`, white space
/// around it ignored.
pub fn answer_is_yes(answer: &str) -> (b: bool)
    ensures
        b == (trim(answer@) == seq!['y'] || trim(answer@) == seq!['Y']),
{
    let a = chars_of(answer);
    let t = trim_chars(a.as_slice());
    let b = t.len() == 1 && (t[0] == 'y' || t[0] == 'Y');
    proof {
        if t@.len() == 1 {
            assert(t@ =~= seq![t@[0]]);
        }
    }
    b
}

/// Whether an answer to a yes/no question (default yes) is a no: `n` or `N`, white space
/// around it ignored.
pub fn answer_is_no(answer: &str) -> (b: bool)
    ensures
        b == (trim(answer@) == seq!['n'] || trim(answer@) == seq!['N']),
{
    let a = chars_of(answer);
    let t = trim_chars(a.as_slice());
    let b = t.len() == 1 && (t[0] == 'n' || t[0] == 'N');
    proof {
        if t@.len() == 1 {
            assert(t@ =~= seq![t@[0]]);
        }
    }
    b
}

/// The arguments `rsync` gets to copy a save folder's contents into the destination
/// folder: the source and the destination, each with a trailing `/`, then `-a` and
/// `--force`.
pub fn sync_rsync_args(source: &str, dest: &str) -> (args: Vec<String>)
    ensures
        args@.len() == 4,
        args@[0]@ == source@ + seq!['/'],
        args@[1]@ == dest@ + seq!['/'],
        args@[2]@ == "-a"@,
        args@[3]@ == "--force"@,
{
    let mut s = chars_of(source);
    s.push('/');
    let mut d = chars_of(dest);
    d.push('/');
    let mut args: Vec<String> = Vec::new();
    args.push(string_of(s.as_slice()));
    args.push(string_of(d.as_slice()));
    args.push(String::from_str("-a"));
    args.push(String::from_str("--force"));
    args
}

/// The source that a push hands to `rsync`: the save path, with a `/` added when it is an
/// existing directory, and every `~` replaced by the home directory.
pub fn push_source(save_path: &str, is_existing_dir: bool, home: &str) -> (res: String)
    ensures
        res@ == expand_home_spec(
            if is_existing_dir {
                save_path@ + seq!['/']
            } else {
                save_path@
            },
            home@,
        ),
{
    let mut p = chars_of(save_path);
    if is_existing_dir {
        p.push('/');
        assert(p@ =~= save_path@ + seq!['/']);
    }
    let s = string_of(p.as_slice());
    expand_home(s.as_str(), home)
}

/// The directory that holds `path`, if it has one (`Path::parent`).
pub fn parent_dir(path: &str) -> (res: Option<String>)
    ensures
        match res {
            Some(q) => path_parent(path@) == Some(q@),
            None => path_parent(path@) is None,
        },
{
    match parent_of(chars_of(path).as_slice()) {
        Some(q) => Some(string_of(q.as_slice())),
        None => None,
    }
}

/// The arguments `rsync` gets to push saves: the source, the synced folder, and `-a`.
pub fn push_rsync_args(source: &str, folder: &str) -> (args: Vec<String>)
    ensures
        args@.len() == 3,
        args@[0]@ == source@,
        args@[1]@ == folder@,
        args@[2]@ == "-a"@,
{
    let mut args: Vec<String> = Vec::new();
    args.push(String::from_str(source));
    args.push(String::from_str(folder));
    args.push(String::from_str("-a"));
    args
}

} // verus!
