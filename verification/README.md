# wyvern

A command-line client for a GOG game library: it lists, downloads, installs and updates
games, claims GOG Connect games, and syncs save files to a backup directory.

- `src/` is the library, verified with Verus: every decision the commands take, the names
  and paths they compute, the texts they parse and write (the `gameinfo` file, desktop
  entries, listings), the save database, and the handling of installer entries. Its
  contracts state each result exactly; the laws of the library (a `gameinfo` text reads
  back its name and version, a listing is a stable sort by title, the save database gives
  back what was written, an update only fetches files whose checksum changed, newer saves
  are never overwritten silently, ...) are proof functions named `law_*`.
- `app/` is the program around it: the command line, the GOG web API, files, prompts,
  progress bars and the `rsync`, `unzip` and `innoextract` processes.
- `tests/` runs the library on concrete values.
