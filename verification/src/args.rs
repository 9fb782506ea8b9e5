use vstd::prelude::*;

verus! {

/// The `sync` subcommands.
#[derive(Debug)]
pub enum Sync {
    /// Configure where a game's saves are located.
    Saves { game_dir: String, saves: String, db: Option<String> },
    /// Push save files to the sync location.
    Push { game_dir: String, sync_to: Option<String> },
    /// Pull synced save files.
    Pull { game_dir: String, sync_from: Option<String>, force: bool, ignore_older: bool },
    /// Pull all save files from a database.
    DbPull { path: Option<String>, force: bool, ignore_older: bool },
    /// Push all save files in a database.
    DbPush { path: Option<String>, force: bool, ignore_older: bool },
}

/// The `connect` subcommands.
#[derive(Debug)]
pub enum Connect {
    /// List available GOG Connect games.
    ListConnect { claim: bool, quiet: bool, json: bool },
    /// Claim all available GOG Connect games.
    ClaimAll,
}

/// Which shortcuts to add for an installed game.
#[derive(Debug)]
pub struct ShortcutOptions {
    pub desktop: bool,
    pub menu: bool,
    pub shortcuts: bool,
}

/// How `download` picks, names and installs what it downloads.
#[derive(Debug)]
pub struct DownloadOptions {
    pub id: Option<i64>,
    pub search: Option<String>,
    pub install_after: Option<String>,
    pub windows_auto: bool,
    pub windows_force: bool,
    pub first: bool,
    pub all: bool,
    pub dlc: bool,
    pub resume: bool,
    pub original: bool,
    pub output: Option<String>,
    pub preserve_extension: bool,
    pub external_zip: bool,
}

impl ShortcutOptions {
    /// `shortcuts` stands for both kinds: when it is set, `desktop` and `menu` are set too.
    pub fn resolve(&mut self)
        ensures
            final(self).shortcuts == old(self).shortcuts,
            final(self).desktop == (old(self).desktop || old(self).shortcuts),
            final(self).menu == (old(self).menu || old(self).shortcuts),
    {
        if self.shortcuts {
            self.desktop = true;
            self.menu = true;
        }
    }
}

/// Readies the options of `download`: the shortcut flags are resolved, and `original`,
/// which the command line sets to keep the listed name, is turned into whether to use the
/// server's file name.
pub fn prepare_download(options: &mut DownloadOptions, shortcuts: &mut ShortcutOptions)
    ensures
        final(options).original == !old(options).original,
        *final(options) == (DownloadOptions { original: !old(options).original, ..*old(options) }),
        final(shortcuts).shortcuts == old(shortcuts).shortcuts,
        final(shortcuts).desktop == (old(shortcuts).desktop || old(shortcuts).shortcuts),
        final(shortcuts).menu == (old(shortcuts).menu || old(shortcuts).shortcuts),
{
    shortcuts.resolve();
    options.original = !options.original;
}

/// What `download` is asked to fetch.
#[derive(Debug, PartialEq, Eq)]
pub enum DownloadTarget {
    /// The game that a search for this text finds.
    Search(String),
    /// The game with this id.
    Id(i64),
    /// Every game of the library.
    All,
    /// Nothing was named.
    Nothing,
}

/// The target of `download`: a search takes precedence over an id, an id over `all`.
pub fn download_target(options: &DownloadOptions) -> (t: DownloadTarget)
    ensures
        t == (match options.search {
            Some(s) => DownloadTarget::Search(s),
            None => match options.id {
                Some(id) => DownloadTarget::Id(id),
                None => if options.all {
                    DownloadTarget::All
                } else {
                    DownloadTarget::Nothing
                },
            },
        }),
{
    match &options.search {
        Some(s) => DownloadTarget::Search(s.clone()),
        None => match options.id {
            Some(id) => DownloadTarget::Id(id),
            None => if options.all {
                DownloadTarget::All
            } else {
                DownloadTarget::Nothing
            },
        },
    }
}

/// How a game is picked from search results.
#[derive(Debug, PartialEq, Eq)]
pub enum SearchChoice {
    /// The user picks one of the results.
    Ask,
    /// The first result is taken.
    First,
    /// Nothing was found.
    NotFound,
}

/// With `first` the first result is taken (there must be one); otherwise the user picks
/// among the results, when there are any.
pub fn search_choice(first: bool, found: usize) -> (c: SearchChoice)
    requires
        first ==> found > 0,
    ensures
        c == (if first {
            SearchChoice::First
        } else if found > 0 {
            SearchChoice::Ask
        } else {
            SearchChoice::NotFound
        }),
{
    if first {
        SearchChoice::First
    } else if found > 0 {
        SearchChoice::Ask
    } else {
        SearchChoice::NotFound
    }
}

} // verus!
