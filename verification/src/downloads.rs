use vstd::prelude::*;
use crate::args::DownloadOptions;
use crate::library::{Download, Downloads, GameDetails};
use crate::paths::{extension_of, join_path, path_extension, path_join, path_with_file_name, with_file_name_of, file_name_of, path_file_name};
use crate::text::{chars_of, lemma_nat_decimal_injective, nat_decimal, push_all, string_of, u64_decimal};

verus! {

/// The builds of one operating system: Linux when `linux`, else Windows.
pub open spec fn platform_builds(d: Downloads, linux: bool) -> Option<Vec<Download>> {
    if linux {
        d.linux
    } else {
        d.windows
    }
}

/// `d` listed under the name `title`.
pub open spec fn renamed(d: Download, title: String) -> Download {
    Download { name: title, ..d }
}

/// The builds of the given DLCs for one operating system, in order, each listed under its
/// DLC's title.
pub open spec fn dlc_builds(dlcs: Seq<GameDetails>, linux: bool) -> Seq<Download>
    decreases dlcs.len(),
{
    if dlcs.len() == 0 {
        seq![]
    } else {
        dlc_builds(dlcs.drop_last(), linux) + platform_builds(dlcs.last().downloads, linux).unwrap()@.map_values(
            |d: Download| renamed(d, dlcs.last().title),
        )
    }
}

/// The game and each of its DLCs have builds for the operating system.
pub open spec fn has_all_builds(details: GameDetails, linux: bool) -> bool {
    &&& platform_builds(details.downloads, linux) is Some
    &&& forall|k: int|
        0 <= k < details.dlcs@.len() ==> (#[trigger] platform_builds(details.dlcs@[k].downloads, linux)) is Some
}

/// Everything to download for a game with its DLCs: the game's builds for the operating
/// system, then those of each DLC, named after the DLC.
pub open spec fn all_builds(details: GameDetails, linux: bool) -> Seq<Download> {
    platform_builds(details.downloads, linux).unwrap()@ + dlc_builds(details.dlcs@, linux)
}

fn take_builds(d: Downloads, linux: bool) -> (res: Vec<Download>)
    requires
        platform_builds(d, linux) is Some,
    ensures
        res == platform_builds(d, linux).unwrap(),
{
    if linux {
        d.linux.unwrap()
    } else {
        d.windows.unwrap()
    }
}

/// The builds of a game and its DLCs for Linux (`linux`) or Windows, the DLCs' builds
/// named after their DLC.
pub fn all_downloads(details: GameDetails, linux: bool) -> (res: Vec<Download>)
    requires
        has_all_builds(details, linux),
    ensures
        res@ == all_builds(details, linux),
{
    let ghost all_dlcs = details.dlcs@;
    let GameDetails { title: _, downloads, extras: _, dlcs } = details;
    let mut res = take_builds(downloads, linux);
    let ghost base = res@;
    let mut dlcs = dlcs;
    let mut k: usize = 0;
    assert(all_dlcs.take(0) =~= Seq::<GameDetails>::empty());
    assert(all_dlcs.len() == dlcs.len());
    while dlcs.len() > 0
        invariant
            k <= all_dlcs.len(),
            all_dlcs.len() <= usize::MAX,
            dlcs@ == all_dlcs.skip(k as int),
            forall|m: int| 0 <= m < all_dlcs.len() ==> (#[trigger] platform_builds(all_dlcs[m].downloads, linux)) is Some,
            res@ == base + dlc_builds(all_dlcs.take(k as int), linux),
        decreases dlcs@.len(),
    {
        assert(dlcs@.len() == all_dlcs.len() - k);
        let dlc = dlcs.remove(0);
        assert(dlc == all_dlcs[k as int]);
        let GameDetails { title, downloads, extras: _, dlcs: _ } = dlc;
        assert(platform_builds(all_dlcs[k as int].downloads, linux) is Some);
        let mut builds = take_builds(downloads, linux);
        let ghost src = builds@;
        let ghost before = res@;
        let mut m: usize = 0;
        assert(src.len() == builds.len());
        while builds.len() > 0
            invariant
                m <= src.len(),
                src.len() <= usize::MAX,
                builds@ == src.skip(m as int),
                res@ == before + src.take(m as int).map_values(|d: Download| renamed(d, title)),
            decreases builds@.len(),
        {
            assert(builds@.len() == src.len() - m);
            let b = builds.remove(0);
            assert(b == src[m as int]);
            let r = Download {
                manual_url: b.manual_url,
                downloader_url: b.downloader_url,
                name: title.clone(),
                version: b.version,
                date: b.date,
                size: b.size,
            };
            res.push(r);
            proof {
                assert(src.take(m + 1).map_values(|d: Download| renamed(d, title)) =~= src.take(
                    m as int,
                ).map_values(|d: Download| renamed(d, title)).push(renamed(src[m as int], title)));
            }
            m += 1;
            assert(builds@ =~= src.skip(m as int));
        }
        proof {
            assert(src.take(m as int) =~= src);
            let t = all_dlcs.take(k + 1);
            assert(t.drop_last() =~= all_dlcs.take(k as int));
            assert(t.last() == all_dlcs[k as int]);
        }
        k += 1;
        assert(dlcs@ =~= all_dlcs.skip(k as int));
    }
    assert(all_dlcs.take(k as int) =~= all_dlcs);
    res
}

/// Which operating system's builds `download` fetches.
#[derive(Debug, PartialEq, Eq)]
pub enum PlatformChoice {
    /// The Linux builds.
    Linux,
    /// The Windows builds, if the user agrees.
    AskForWindows,
    /// The Windows builds.
    Windows,
}

/// Linux when the game has Linux builds and Windows is not forced; otherwise Windows, asking
/// the user first unless Windows was chosen on the command line.
pub fn choose_platform(has_linux: bool, options: &DownloadOptions) -> (c: PlatformChoice)
    ensures
        c == (if has_linux && !options.windows_force {
            PlatformChoice::Linux
        } else if !options.windows_auto && !options.windows_force {
            PlatformChoice::AskForWindows
        } else {
            PlatformChoice::Windows
        }),
{
    if has_linux && !options.windows_force {
        PlatformChoice::Linux
    } else if !options.windows_auto && !options.windows_force {
        PlatformChoice::AskForWindows
    } else {
        PlatformChoice::Windows
    }
}

/// What `download` fetches for a game: with `dlc` the builds of the game and its DLCs,
/// otherwise the game's own builds, for Linux (`linux`) or Windows.
pub fn downloads_for(details: GameDetails, linux: bool, dlc: bool) -> (res: Vec<Download>)
    requires
        dlc ==> has_all_builds(details, linux),
        platform_builds(details.downloads, linux) is Some,
    ensures
        res@ == if dlc {
            all_builds(details, linux)
        } else {
            platform_builds(details.downloads, linux).unwrap()@
        },
{
    if dlc {
        all_downloads(details, linux)
    } else {
        take_builds(details.downloads, linux)
    }
}

/// The last segment of a URL's path: what follows its last `/`.
pub open spec fn last_segment(p: Seq<char>) -> Seq<char>
    decreases p.len(),
{
    if p.len() == 0 {
        p
    } else if p.last() == '/' {
        seq![]
    } else {
        last_segment(p.drop_last()).push(p.last())
    }
}

/// The last segment holds no `/`, ends the path, and is either the whole path or follows
/// a `/`.
pub proof fn law_last_segment(p: Seq<char>)
    ensures
        forall|k: int| 0 <= k < last_segment(p).len() ==> #[trigger] last_segment(p)[k] != '/',
        last_segment(p).len() <= p.len(),
        p.skip(p.len() - last_segment(p).len()) == last_segment(p),
        last_segment(p).len() == p.len() || p[p.len() - last_segment(p).len() - 1] == '/',
    decreases p.len(),
{
    if p.len() > 0 && p.last() != '/' {
        let t = p.drop_last();
        law_last_segment(t);
        let r = last_segment(t);
        assert(last_segment(p) == r.push(p.last()));
        assert(p.skip(p.len() - last_segment(p).len()) =~= t.skip(t.len() - r.len()).push(p.last()));
        if r.len() < t.len() {
            assert(p[p.len() - last_segment(p).len() - 1] == t[t.len() - r.len() - 1]);
        }
    } else if p.len() > 0 {
        assert(p.skip(p.len() as int) =~= Seq::<char>::empty());
    }
}

/// Every DLC build that is downloaded is a build of one of the DLCs for the operating
/// system, listed under that DLC's title and otherwise unchanged.
pub proof fn law_dlc_builds_named_after_dlc(dlcs: Seq<GameDetails>, linux: bool, j: int)
    requires
        0 <= j < dlc_builds(dlcs, linux).len(),
    ensures
        exists|k: int, m: int|
            0 <= k < dlcs.len() && 0 <= m < platform_builds(dlcs[k].downloads, linux).unwrap()@.len() && ({
                let b = #[trigger] platform_builds(dlcs[k].downloads, linux).unwrap()@[m];
                let e = dlc_builds(dlcs, linux)[j];
                &&& e.name == dlcs[k].title
                &&& e.manual_url == b.manual_url
                &&& e.downloader_url == b.downloader_url
                &&& e.version == b.version
                &&& e.date == b.date
                &&& e.size == b.size
            }),
    decreases dlcs.len(),
{
    let front = dlc_builds(dlcs.drop_last(), linux);
    let d = dlcs.last();
    let bs = platform_builds(d.downloads, linux).unwrap()@;
    if j < front.len() {
        law_dlc_builds_named_after_dlc(dlcs.drop_last(), linux, j);
        let (k, m) = choose|k: int, m: int|
            0 <= k < dlcs.drop_last().len() && 0 <= m < platform_builds(dlcs.drop_last()[k].downloads, linux).unwrap()@.len() && ({
                let b = #[trigger] platform_builds(dlcs.drop_last()[k].downloads, linux).unwrap()@[m];
                let e = dlc_builds(dlcs.drop_last(), linux)[j];
                &&& e.name == dlcs.drop_last()[k].title
                &&& e.manual_url == b.manual_url
                &&& e.downloader_url == b.downloader_url
                &&& e.version == b.version
                &&& e.date == b.date
                &&& e.size == b.size
            });
        assert(dlcs.drop_last()[k] == dlcs[k]);
        assert(dlc_builds(dlcs, linux)[j] == front[j]);
    } else {
        let m = j - front.len();
        assert(dlc_builds(dlcs, linux)[j] == renamed(bs[m], d.title));
        assert(dlcs[dlcs.len() - 1] == d);
    }
}

/// The game's own builds come first, unchanged, and the DLCs' builds follow.
pub proof fn law_game_builds_first(details: GameDetails, linux: bool)
    ensures
        all_builds(details, linux).take(platform_builds(details.downloads, linux).unwrap()@.len() as int)
            == platform_builds(details.downloads, linux).unwrap()@,
        all_builds(details, linux).skip(platform_builds(details.downloads, linux).unwrap()@.len() as int)
            == dlc_builds(details.dlcs@, linux),
{
    let g = platform_builds(details.downloads, linux).unwrap()@;
    assert(all_builds(details, linux).take(g.len() as int) =~= g);
    assert(all_builds(details, linux).skip(g.len() as int) =~= dlc_builds(details.dlcs@, linux));
}

/// The file name that the server gives a download: the last segment of the URL's path.
pub fn server_file_name(url_path: &str) -> (res: String)
    ensures
        res@ == last_segment(url_path@),
{
    let p = chars_of(url_path);
    let mut start: usize = p.len();
    assert(p@.take(start as int) =~= p@);
    assert(last_segment(p@) + p@.subrange(start as int, p@.len() as int) =~= last_segment(p@));
    while start > 0 && p[start - 1] != '/'
        invariant
            start <= p@.len(),
            last_segment(p@) == last_segment(p@.take(start as int)) + p@.subrange(start as int, p@.len() as int),
        decreases start,
    {
        proof {
            let t = p@.take(start as int);
            assert(t.drop_last() =~= p@.take(start - 1));
            assert(last_segment(t) == last_segment(t.drop_last()).push(t.last()));
            assert(last_segment(p@.take(start - 1)).push(p@[start - 1]) + p@.subrange(start as int, p@.len() as int)
                =~= last_segment(p@.take(start - 1)) + p@.subrange(start - 1, p@.len() as int));
        }
        start -= 1;
    }
    proof {
        let t = p@.take(start as int);
        assert(last_segment(t) =~= Seq::<char>::empty());
        assert(Seq::<char>::empty() + p@.subrange(start as int, p@.len() as int) =~= p@.subrange(start as int, p@.len() as int));
    }
    let mut res: Vec<char> = Vec::new();
    let mut k: usize = start;
    while k < p.len()
        invariant
            start <= k <= p@.len(),
            res@ == p@.subrange(start as int, k as int),
        decreases p@.len() - k,
    {
        res.push(p[k]);
        k += 1;
    }
    string_of(res.as_slice())
}

/// The name a download is written under: the server's file name when `original` is set,
/// otherwise the listed name; put inside the output directory, or replaced by the output
/// path, when one is given; and, when an output path is given and `preserve_extension` is
/// set, with the server file's extension added.
pub open spec fn target_name(listed: Seq<char>, server: Seq<char>, original: bool, output: Option<Seq<char>>,
    output_is_dir: bool, preserve_extension: bool) -> Seq<char> {
    let base = if original {
        server
    } else {
        listed
    };
    let placed = match output {
        Some(o) => if output_is_dir {
            path_join(o, base)
        } else {
            o
        },
        None => base,
    };
    if preserve_extension && output is Some && path_extension(server) is Some {
        placed + seq!['.'] + path_extension(server).unwrap()
    } else {
        placed
    }
}

/// Without an output path, `preserve_extension` changes nothing: the name is the listed or
/// the server's name as it is.
pub proof fn law_extension_needs_output(listed: Seq<char>, server: Seq<char>, original: bool, output_is_dir: bool)
    ensures
        target_name(listed, server, original, None, output_is_dir, true) == target_name(
            listed,
            server,
            original,
            None,
            output_is_dir,
            false,
        ),
        target_name(listed, server, original, None, output_is_dir, true) == (if original {
            server
        } else {
            listed
        }),
{
}

/// The base name of a download is the server's file name when `original` is set and the
/// listed name otherwise, with or without an output path: an output directory only puts
/// that base name inside it, and an output path that is no directory replaces it. An
/// extension, when asked for with an output path, is appended after a `.`.
pub proof fn law_output_keeps_base_name(
    listed: Seq<char>,
    server: Seq<char>,
    original: bool,
    output: Seq<char>,
    output_is_dir: bool,
)
    ensures
        target_name(listed, server, original, None, output_is_dir, false) == (if original {
            server
        } else {
            listed
        }),
        target_name(listed, server, original, Some(output), true, false) == path_join(
            output,
            if original {
                server
            } else {
                listed
            },
        ),
        target_name(listed, server, original, Some(output), false, false) == output,
        target_name(listed, server, original, Some(output), output_is_dir, true) == match path_extension(server) {
            Some(e) => target_name(listed, server, original, Some(output), output_is_dir, false) + seq!['.'] + e,
            None => target_name(listed, server, original, Some(output), output_is_dir, false),
        },
{
}

/// Computes the name a download is written under; `output_is_dir` tells whether the output
/// path, if any, is an existing directory.
pub fn download_target_name(listed: &str, server: &str, options: &DownloadOptions, output_is_dir: bool) -> (res: String)
    ensures
        res@ == target_name(
            listed@,
            server@,
            options.original,
            match options.output {
                Some(o) => Some(o@),
                None => None,
            },
            output_is_dir,
            options.preserve_extension,
        ),
{
    let server_chars = chars_of(server);
    let base = if options.original {
        chars_of(server)
    } else {
        chars_of(listed)
    };
    let mut name = match &options.output {
        Some(o) => if output_is_dir {
            join_path(chars_of(o.as_str()).as_slice(), base.as_slice())
        } else {
            chars_of(o.as_str())
        },
        None => base,
    };
    if options.preserve_extension && options.output.is_some() {
        match extension_of(server_chars.as_slice()) {
            Some(ext) => {
                name.push('.');
                push_all(&mut name, ext.as_slice());
            },
            None => {},
        }
    }
    string_of(name.as_slice())
}

/// The name tried when the target name is taken, for the count `k` (counting from one): the
/// target's file name with `_` and `k` appended.
pub open spec fn collision_name(name: Seq<char>, file_name: Seq<char>, k: nat) -> Seq<char> {
    path_with_file_name(name, counted_file_name(file_name, k))
}

/// A file name with `_` and a count appended.
pub open spec fn counted_file_name(file_name: Seq<char>, k: nat) -> Seq<char> {
    file_name + "_"@ + nat_decimal(k)
}

/// Different counts give different file names, so trying the counts one after another
/// never tries a name twice.
pub proof fn law_counted_names_distinct(file_name: Seq<char>, k1: nat, k2: nat)
    requires
        k1 != k2,
    ensures
        counted_file_name(file_name, k1) != counted_file_name(file_name, k2),
{
    let p = file_name + "_"@;
    if counted_file_name(file_name, k1) == counted_file_name(file_name, k2) {
        assert(counted_file_name(file_name, k1) == p + nat_decimal(k1));
        assert(counted_file_name(file_name, k2) == p + nat_decimal(k2));
        assert((p + nat_decimal(k1)).skip(p.len() as int) =~= nat_decimal(k1));
        assert((p + nat_decimal(k2)).skip(p.len() as int) =~= nat_decimal(k2));
        lemma_nat_decimal_injective(k1, k2);
    }
}

/// The file name of the computed target name; downloading stops when it has none.
pub fn target_file_name(name: &str) -> (res: Option<String>)
    ensures
        match res {
            Some(n) => path_file_name(name@) == Some(n@),
            None => path_file_name(name@) is None,
        },
{
    let c = chars_of(name);
    match file_name_of(c.as_slice()) {
        Some(n) => Some(string_of(n.as_slice())),
        None => None,
    }
}

/// The name tried for the count `k` when the target `name`, whose file name is
/// `file_name`, is taken. Its caller tries the counts from one upwards and takes the first
/// name that is free.
pub fn next_candidate(name: &str, file_name: &str, k: u64) -> (res: String)
    ensures
        res@ == collision_name(name@, file_name@, k as nat),
{
    let mut n = chars_of(file_name);
    push_all(&mut n, chars_of("_").as_slice());
    push_all(&mut n, u64_decimal(k).as_slice());
    let r = with_file_name_of(chars_of(name).as_slice(), n.as_slice());
    string_of(r.as_slice())
}

/// The file that a download is written to until it is complete: the name with `.tmp`.
pub fn temp_name(name: &str) -> (res: String)
    ensures
        res@ == name@ + ".tmp"@,
{
    let mut n = chars_of(name);
    push_all(&mut n, chars_of(".tmp").as_slice());
    string_of(n.as_slice())
}

/// How one file of a download starts.
#[derive(Debug, PartialEq, Eq)]
pub enum FileStart {
    /// Go on from this many bytes of the partial file.
    Resume(u64),
    /// Resuming was asked but the partial file is already as large as the whole file, or
    /// larger; the file is skipped.
    Skip,
    /// The target exists and resuming was not asked; downloading stops.
    Exists,
    /// Download the whole file.
    Fresh,
}

/// Whether a file is resumed, skipped or downloaded whole. `partial_len` is the size of the
/// partial file when there is one. A partial file shorter than the whole is resumed from
/// its end; one that is as large as the whole or larger is skipped.
pub fn file_start(resume: bool, partial_len: Option<u64>, total_size: u64, target_exists: bool) -> (s: FileStart)
    ensures
        s == (if resume {
            match partial_len {
                Some(len) => if len < total_size {
                    FileStart::Resume(len)
                } else {
                    FileStart::Skip
                },
                None => FileStart::Fresh,
            }
        } else if target_exists {
            FileStart::Exists
        } else {
            FileStart::Fresh
        }),
{
    if resume {
        match partial_len {
            Some(len) => if len < total_size {
                FileStart::Resume(len)
            } else {
                FileStart::Skip
            },
            None => FileStart::Fresh,
        }
    } else if target_exists {
        FileStart::Exists
    } else {
        FileStart::Fresh
    }
}

/// The message shown as the file at index `idx` of `count` starts: `<verb> <name>, <n> of
/// <count>`, counting from one.
pub open spec fn progress_text(verb: Seq<char>, name: Seq<char>, idx: nat, count: nat) -> Seq<char> {
    verb + " "@ + name + ", "@ + nat_decimal(idx + 1) + " of "@ + nat_decimal(count)
}

/// Builds the progress message of a file.
pub fn progress_message(resuming: bool, name: &str, idx: u64, count: u64) -> (res: String)
    requires
        idx < count,
    ensures
        res@ == progress_text(if resuming {
            "Resuming"@
        } else {
            "Downloading"@
        }, name@, idx as nat, count as nat),
{
    let mut m = if resuming {
        chars_of("Resuming")
    } else {
        chars_of("Downloading")
    };
    push_all(&mut m, chars_of(" ").as_slice());
    push_all(&mut m, chars_of(name).as_slice());
    push_all(&mut m, chars_of(", ").as_slice());
    push_all(&mut m, u64_decimal(idx + 1).as_slice());
    push_all(&mut m, chars_of(" of ").as_slice());
    push_all(&mut m, u64_decimal(count).as_slice());
    string_of(m.as_slice())
}

/// Which game `extras` fetches the extras of.
#[derive(Debug, PartialEq, Eq)]
pub enum ExtrasGame {
    /// The game with this id.
    Id(i64),
    /// A game found by searching for this text.
    Search(String),
    /// No game was named.
    Nothing,
}

/// An id, when given, names the game; otherwise the search text does.
pub fn extras_game(id: Option<i64>, game: Option<String>) -> (g: ExtrasGame)
    ensures
        g == (match id {
            Some(i) => ExtrasGame::Id(i),
            None => match game {
                Some(t) => ExtrasGame::Search(t),
                None => ExtrasGame::Nothing,
            },
        }),
{
    match id {
        Some(i) => ExtrasGame::Id(i),
        None => match game {
            Some(t) => ExtrasGame::Search(t),
            None => ExtrasGame::Nothing,
        },
    }
}

/// The folder that extras go to: the output folder when one is given, else the game's
/// title and ` Extras`.
pub fn extras_folder(output: Option<String>, title: &str) -> (folder: String)
    ensures
        folder@ == (match output {
            Some(o) => o@,
            None => title@ + " Extras"@,
        }),
{
    match output {
        Some(o) => o,
        None => extras_folder_name(title),
    }
}

/// The index of the first extra whose name is `slug`, if there is one.
pub fn extra_by_slug(names: &Vec<String>, slug: &String) -> (res: Option<usize>)
    ensures
        match res {
            Some(i) => i < names@.len() && names@[i as int]@ == slug@ && forall|j: int|
                0 <= j < i ==> (#[trigger] names@[j])@ != slug@,
            None => forall|j: int| 0 <= j < names@.len() ==> (#[trigger] names@[j])@ != slug@,
        },
{
    let mut i: usize = 0;
    while i < names.len()
        invariant
            i <= names@.len(),
            forall|j: int| 0 <= j < i ==> (#[trigger] names@[j])@ != slug@,
        decreases names@.len() - i,
    {
        if names[i] == *slug {
            return Some(i);
        }
        i += 1;
    }
    None
}

/// The folder that a game's extras are downloaded into: its title and ` Extras`.
pub fn extras_folder_name(title: &str) -> (name: String)
    ensures
        name@ == title@ + " Extras"@,
{
    let mut n = chars_of(title);
    push_all(&mut n, chars_of(" Extras").as_slice());
    string_of(n.as_slice())
}

/// Where fetching an extra starts: its manual URL on `https://gog.com`.
pub fn extra_url(manual_url: &str) -> (url: String)
    ensures
        url@ == "https://gog.com"@ + manual_url@,
{
    let mut u = chars_of("https://gog.com");
    push_all(&mut u, chars_of(manual_url).as_slice());
    string_of(u.as_slice())
}

/// The extra at index `i` is fetched: all are, or it was picked.
pub open spec fn extra_selected(all: bool, picked: Seq<usize>, i: int) -> bool {
    all || picked.contains(i as usize)
}

fn index_picked(picked: &Vec<usize>, i: usize) -> (b: bool)
    ensures
        b == picked@.contains(i),
{
    let mut k: usize = 0;
    while k < picked.len()
        invariant
            k <= picked@.len(),
            forall|m: int| 0 <= m < k ==> picked@[m] != i,
        decreases picked@.len() - k,
    {
        if picked[k] == i {
            return true;
        }
        k += 1;
    }
    false
}

/// The indices, below `count` and in increasing order, of the extras to fetch.
pub fn selected_extras(count: usize, all: bool, picked: &Vec<usize>) -> (res: Vec<usize>)
    ensures
        forall|k: int| 0 <= k < res@.len() ==> (#[trigger] res@[k] as int) < count && extra_selected(all, picked@, res@[k] as int),
        forall|k1: int, k2: int| 0 <= k1 < k2 < res@.len() ==> #[trigger] res@[k1] < #[trigger] res@[k2],
        forall|i: int| 0 <= i < count && extra_selected(all, picked@, i) ==> res@.contains(i as usize),
        forall|i: int| 0 <= i < count ==> (#[trigger] res@.contains(i as usize) == (all || picked@.contains(i as usize))),
{
    let mut res: Vec<usize> = Vec::new();
    let mut i: usize = 0;
    while i < count
        invariant
            i <= count,
            forall|k: int| 0 <= k < res@.len() ==> (#[trigger] res@[k] as int) < i && extra_selected(all, picked@, res@[k] as int),
            forall|k1: int, k2: int| 0 <= k1 < k2 < res@.len() ==> #[trigger] res@[k1] < #[trigger] res@[k2],
            forall|j: int| 0 <= j < i && extra_selected(all, picked@, j) ==> res@.contains(j as usize),
        decreases count - i,
    {
        let chosen = all || index_picked(picked, i);
        assert(chosen == extra_selected(all, picked@, i as int));
        if chosen {
            let ghost before = res@;
            res.push(i);
            assert forall|j: int| 0 <= j < i + 1 && extra_selected(all, picked@, j) implies res@.contains(j as usize) by {
                if j == i {
                    assert(res@[before.len() as int] == i);
                } else {
                    let m = choose|m: int| 0 <= m < before.len() && before[m] == j as usize;
                    assert(res@[m] == j as usize);
                }
            }
        }
        i += 1;
    }
    proof {
        assert forall|j: int| 0 <= j < count implies (#[trigger] res@.contains(j as usize) == (all
            || picked@.contains(j as usize))) by {
            if res@.contains(j as usize) {
                let m = choose|m: int| 0 <= m < res@.len() && res@[m] == j as usize;
                assert(extra_selected(all, picked@, res@[m] as int));
                assert(res@[m] as int == j);
            }
            if all || picked@.contains(j as usize) {
                assert(extra_selected(all, picked@, j));
                assert(res@.contains(j as usize));
            }
        }
    }
    res
}

/// Without `all`, exactly the picked extras are fetched; with `all`, every one is.
pub proof fn law_extras_fetched_are_picked(all: bool, picked: Seq<usize>, i: int)
    requires
        0 <= i <= usize::MAX,
    ensures
        extra_selected(true, picked, i),
        extra_selected(false, picked, i) == picked.contains(i as usize),
        extra_selected(all, picked, i) == (all || picked.contains(i as usize)),
{
}

} // verus!
