//! The logic of `wyvern`, a command-line client that downloads, installs and updates the
//! games of a GOG library and syncs their saves: what it decides, the names and paths it
//! computes, the texts it reads and writes, and the save database it keeps.
//!
//! - `text`: characters of strings; trimming, lines, search and replace, decimal numbers and
//!   the order of `str`, each stated as `std` does it.
//! - `paths`: joining paths, and what `std::path` gives for file names, extensions, parents.
//! - `args`: the options of the subcommands and the choices made from them.
//! - `gameinfo`: a game's `gameinfo` file.
//! - `savedb`: where the saves of each synced game are.
//! - `sync`: save sync paths and decisions.
//! - `library`: games of the library, their listing and its order.
//! - `downloads`: what is downloaded, and under which names.
//! - `install`: what an installation and an update do with an installer's files.
//! - `shortcuts`: desktop and menu entries.
//! - `interactive`: the menus of the interactive mode and the command lines they run.
//! - `connect`: GOG Connect listings.
pub mod text;
pub mod args;
pub mod gameinfo;
pub mod savedb;
pub mod paths;
pub mod sync;
pub mod library;
pub mod downloads;
pub mod install;
pub mod shortcuts;
pub mod interactive;
pub mod connect;
