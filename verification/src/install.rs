use vstd::prelude::*;
use crate::paths::{join_path, path_join};
use crate::text::{
    chars_of, contains, contains_chars, law_replace_after_prefix, law_replace_all, occurs_at, replace_all,
    replace_chars, string_of,
};

verus! {

/// The reversed IEEE polynomial of CRC-32.
pub open spec fn crc32_polynomial() -> u32 {
    0xedb88320u32
}

/// One bit of CRC-32 division on the reflected register: shift right by one, folding in the
/// polynomial when the bit shifted out is set.
pub open spec fn crc32_step(v: u32) -> u32 {
    if v & 1u32 == 1u32 {
        (v >> 1u32) ^ crc32_polynomial()
    } else {
        v >> 1u32
    }
}

/// `n` steps of CRC-32 division.
pub open spec fn crc32_rounds(v: u32, n: nat) -> u32
    decreases n,
{
    if n == 0 {
        v
    } else {
        crc32_rounds(crc32_step(v), (n - 1) as nat)
    }
}

/// The CRC-32 register after some bytes: it starts with all bits set, and each byte is
/// folded into its low bits and followed by eight steps.
pub open spec fn crc32_register(data: Seq<u8>) -> u32
    decreases data.len(),
{
    if data.len() == 0 {
        0xffffffffu32
    } else {
        crc32_rounds(crc32_register(data.drop_last()) ^ (data.last() as u32), 8)
    }
}

/// The CRC-32 (IEEE) checksum of some bytes: the final register with all bits inverted.
pub open spec fn crc32_ieee(data: Seq<u8>) -> u32 {
    crc32_register(data) ^ 0xffffffffu32
}

/// What `inflate::inflate_bytes` gives for some bytes: the DEFLATE-decompressed bytes, or a
/// message saying why they are not valid DEFLATE data.
pub uninterp spec fn inflated(data: Seq<u8>) -> Result<Seq<u8>, Seq<char>>;

/// Calls `crc::crc32::checksum_ieee`. Trusted: the result is `crc32_ieee` of the bytes; the
/// crate computes the same division a byte at a time, through a table of the eight steps.
#[verifier::external_body]
fn checksum_ieee(data: &[u8]) -> (sum: u32)
    ensures
        sum == crc32_ieee(data@),
{
    crc::crc32::checksum_ieee(data)
}

/// Calls `inflate::inflate_bytes`. Trusted: the result is `inflated` of the bytes, the
/// bytes or the message taken by their views.
#[verifier::external_body]
fn inflate_bytes(data: &[u8]) -> (res: Result<Vec<u8>, String>)
    ensures
        match res {
            Ok(v) => inflated(data@) == Ok::<Seq<u8>, Seq<char>>(v@),
            Err(e) => inflated(data@) == Err::<Seq<u8>, Seq<char>>(e@),
        },
{
    inflate::inflate_bytes(data)
}

/// Whether a file on disk is the one an installer holds: its CRC-32 equals the recorded one.
pub fn file_is_current(contents: &[u8], expected_crc: u32) -> (b: bool)
    ensures
        b == (crc32_ieee(contents@) == expected_crc),
{
    checksum_ieee(contents) == expected_crc
}

/// The method number of DEFLATE compression in a zip archive.
pub const DEFLATE_METHOD: u16 = 8;

/// The contents of a file that an installer stores with the given compression method:
/// inflated when the method is DEFLATE, the stored bytes as they are otherwise.
pub fn stored_contents(data: Vec<u8>, compression_method: u16) -> (res: Result<Vec<u8>, String>)
    ensures
        compression_method == DEFLATE_METHOD ==> match res {
            Ok(v) => inflated(data@) == Ok::<Seq<u8>, Seq<char>>(v@),
            Err(e) => inflated(data@) == Err::<Seq<u8>, Seq<char>>(e@),
        },
        compression_method != DEFLATE_METHOD ==> res == Ok::<Vec<u8>, String>(data),
{
    if compression_method == DEFLATE_METHOD {
        inflate_bytes(data.as_slice())
    } else {
        Ok(data)
    }
}

/// The little-endian 16-bit number at `at`.
pub open spec fn le_u16(b: Seq<u8>, at: int) -> nat {
    (b[at] + 256 * b[at + 1]) as nat
}

/// The little-endian 32-bit number at `at`.
pub open spec fn le_u32(b: Seq<u8>, at: int) -> nat {
    (b[at] + 256 * b[at + 1] + 65536 * b[at + 2] + 16777216 * b[at + 3]) as nat
}

/// The signature that opens a zip local file header.
pub const LOCAL_HEADER_SIGNATURE: u32 = 0x04034b50;

/// Where the data of a local file entry starts: after the fixed 30-byte header, the file
/// name and the extra field, whose length the header records at offset 28.
pub open spec fn local_data_start(b: Seq<u8>, name_len: u16) -> int {
    30 + name_len + le_u16(b, 28)
}

/// The bytes hold a local file header with its name and extra field, and the two lengths
/// add up within 16 bits.
pub open spec fn local_entry_fits(b: Seq<u8>, name_len: u16) -> bool {
    &&& b.len() >= 30
    &&& name_len + le_u16(b, 28) <= u16::MAX
    &&& local_data_start(b, name_len) <= b.len()
}

/// A file entry read from a range of an installer.
pub struct LocalEntry {
    /// Whether the range starts with the local file header signature.
    pub signature_ok: bool,
    /// The entry's stored data.
    pub data: Vec<u8>,
}

/// Whether a downloaded range is large enough to hold the local entry it should hold.
pub fn local_entry_fits_exec(bytes: &[u8], name_len: u16) -> (b: bool)
    ensures
        b == local_entry_fits(bytes@, name_len),
{
    if bytes.len() < 30 {
        return false;
    }
    let extra: u32 = bytes[28] as u32 + 256 * (bytes[29] as u32);
    let total: u32 = name_len as u32 + extra;
    total <= 65535 && 30 + (total as usize) <= bytes.len()
}

/// Reads a zip local file entry from a downloaded range: whether it opens with the local
/// header signature, and the data after its header, file name and extra field.
pub fn local_file_data(bytes: &[u8], name_len: u16) -> (e: LocalEntry)
    requires
        local_entry_fits(bytes@, name_len),
    ensures
        e.signature_ok == (le_u32(bytes@, 0) == LOCAL_HEADER_SIGNATURE),
        e.data@ == bytes@.skip(local_data_start(bytes@, name_len)),
{
    let sig: u32 = bytes[0] as u32 + 256 * (bytes[1] as u32) + 65536 * (bytes[2] as u32) + 16777216 * (
    bytes[3] as u32);
    let extra: usize = bytes[28] as usize + 256 * (bytes[29] as usize);
    let start: usize = 30 + name_len as usize + extra;
    let mut data: Vec<u8> = Vec::new();
    let mut k: usize = start;
    while k < bytes.len()
        invariant
            start <= k <= bytes@.len(),
            data@ == bytes@.subrange(start as int, k as int),
        decreases bytes@.len() - k,
    {
        data.push(bytes[k]);
        k += 1;
    }
    LocalEntry { signature_ok: sig == LOCAL_HEADER_SIGNATURE, data }
}

/// A file that belongs to the game itself: its path names neither `meta` nor `scripts`.
pub open spec fn is_game_file(path: Seq<char>) -> bool {
    !contains(path, "meta"@) && !contains(path, "scripts"@)
}

/// A path belongs to the game exactly when neither `meta` nor `scripts` occurs anywhere in
/// it; nothing else keeps a file out.
pub proof fn law_game_files(path: Seq<char>)
    ensures
        is_game_file(path) == ((forall|i: int| !#[trigger] occurs_at(path, "meta"@, i)) && (forall|i: int|
            !#[trigger] occurs_at(path, "scripts"@, i))),
{
}

/// Where an installer's file goes relative to the game directory: `/noarch` and then
/// `data/` removed from its path.
pub open spec fn game_relative_path(name: Seq<char>) -> Seq<char> {
    replace_all(replace_all(name, "/noarch"@, Seq::empty()), "data/"@, Seq::empty())
}

/// An installer's file under `data/noarch/` goes to the rest of its path, relative to the
/// game directory, when that rest holds neither pattern that is removed.
pub proof fn law_game_relative_path(rest: Seq<char>)
    requires
        !contains(seq!['/'] + rest, "/noarch"@),
        !contains(rest, "data/"@),
    ensures
        game_relative_path("data/noarch/"@ + rest) == rest,
{
    reveal_strlit("data/noarch/");
    reveal_strlit("/noarch");
    reveal_strlit("data/");
    let data = seq!['d', 'a', 't', 'a'];
    let slash_rest = seq!['/'] + rest;
    let noarch = "/noarch"@;
    let empty = Seq::<char>::empty();
    assert("data/noarch/"@ + rest =~= data + (noarch + slash_rest));
    law_replace_after_prefix(data, noarch + slash_rest, noarch, empty);
    law_replace_all(slash_rest, noarch, empty);
    assert(replace_all("data/noarch/"@ + rest, noarch, empty) == data + (empty + slash_rest));
    assert(data + (empty + slash_rest) =~= "data/"@ + rest);
    law_replace_all(rest, "data/"@, empty);
    assert(empty + rest =~= rest);
}

fn is_game_file_exec(path: &[char]) -> (b: bool)
    ensures
        b == is_game_file(path@),
{
    let meta = chars_of("meta");
    let scripts = chars_of("scripts");
    !contains_chars(path, meta.as_slice()) && !contains_chars(path, scripts.as_slice())
}

fn game_relative_path_exec(name: &[char]) -> (res: Vec<char>)
    ensures
        res@ == game_relative_path(name@),
{
    let noarch = chars_of("/noarch");
    let data = chars_of("data/");
    let empty: Vec<char> = Vec::new();
    assert(empty@ =~= Seq::<char>::empty());
    proof {
        reveal_strlit("/noarch");
        reveal_strlit("data/");
    }
    let a = replace_chars(name, noarch.as_slice(), empty.as_slice());
    replace_chars(a.as_slice(), data.as_slice(), empty.as_slice())
}

/// Where `update` puts an installer's file: nowhere when its name marks it as not part of
/// the game, else its game-relative path inside the game directory.
pub fn update_target(game_dir: &str, filename: &str) -> (res: Option<String>)
    ensures
        match res {
            Some(p) => is_game_file(filename@) && p@ == path_join(game_dir@, game_relative_path(filename@)),
            None => !is_game_file(filename@),
        },
{
    let f = chars_of(filename);
    if !is_game_file_exec(f.as_slice()) {
        return None;
    }
    let rel = game_relative_path_exec(f.as_slice());
    Some(string_of(join_path(chars_of(game_dir).as_slice(), rel.as_slice()).as_slice()))
}

/// Where an installation puts one of the installer's files, given by its path inside the
/// installer's archive, whether the archive is read directly or unpacked by the `unzip`
/// tool: nowhere when its game-relative path marks it as not part of the game, else that
/// path inside the installation directory.
pub fn install_target(dest: &str, name: &str) -> (res: Option<String>)
    ensures
        match res {
            Some(p) => is_game_file(game_relative_path(name@)) && p@ == path_join(dest@, game_relative_path(name@)),
            None => !is_game_file(game_relative_path(name@)),
        },
{
    let rel = game_relative_path_exec(chars_of(name).as_slice());
    if !is_game_file_exec(rel.as_slice()) {
        return None;
    }
    Some(string_of(join_path(chars_of(dest).as_slice(), rel.as_slice()).as_slice()))
}

/// What happens to an unpacked entry that belongs to the game.
#[derive(Debug, PartialEq, Eq)]
pub enum UnpackedAction {
    /// The target names a directory: create it.
    CreateDir,
    /// Create the target's parent, then the target as a directory.
    CreateParentAndDir,
    /// Create the target's parent, then move the entry there.
    CreateParentAndMove,
}

/// A target ending in `/` is a directory to create; otherwise the entry is a directory to
/// create, or a file to move, once the parent exists.
pub fn unpacked_action(target: &str, entry_is_dir: bool) -> (a: UnpackedAction)
    ensures
        a == (if target@.len() > 0 && target@.last() == '/' {
            UnpackedAction::CreateDir
        } else if entry_is_dir {
            UnpackedAction::CreateParentAndDir
        } else {
            UnpackedAction::CreateParentAndMove
        }),
{
    let t = chars_of(target);
    if t.len() > 0 && t[t.len() - 1] == '/' {
        UnpackedAction::CreateDir
    } else if entry_is_dir {
        UnpackedAction::CreateParentAndDir
    } else {
        UnpackedAction::CreateParentAndMove
    }
}

/// What `update` does with a file of the installer.
#[derive(Debug, PartialEq, Eq)]
pub enum UpdateAction {
    /// Leave it as it is.
    Skip,
    /// Create it as a directory.
    CreateDir,
    /// Fetch it from the installer and write it.
    Fetch,
}

/// An existing file is fetched only when it is not current; a directory entry is created
/// when something is at its place and left alone otherwise; a missing file is fetched.
/// `current` is whether an existing file's checksum matches (see `file_is_current`).
pub open spec fn update_decision(is_file: bool, exists: bool, is_dir: bool, current: bool) -> UpdateAction {
    if is_file {
        if current {
            UpdateAction::Skip
        } else {
            UpdateAction::Fetch
        }
    } else if !exists && is_dir {
        UpdateAction::Skip
    } else if is_dir {
        UpdateAction::CreateDir
    } else {
        UpdateAction::Fetch
    }
}

/// Takes the decision of `update` for one file (see `update_decision`).
pub fn update_action(is_file: bool, exists: bool, is_dir: bool, current: bool) -> (a: UpdateAction)
    ensures
        a == update_decision(is_file, exists, is_dir, current),
{
    if is_file {
        if current {
            UpdateAction::Skip
        } else {
            UpdateAction::Fetch
        }
    } else if !exists && is_dir {
        UpdateAction::Skip
    } else if is_dir {
        UpdateAction::CreateDir
    } else {
        UpdateAction::Fetch
    }
}

/// Updating fetches what changed and only that: a file on disk whose checksum equals the
/// one the new installer records is left as it is, one whose checksum differs is fetched,
/// a file entry with nothing at its place is fetched, and a directory entry is created
/// where something already stands and skipped otherwise.
pub proof fn law_update_fetches_only_changed(contents: Seq<u8>, expected_crc: u32, exists: bool, is_dir: bool, current: bool)
    ensures
        update_decision(true, exists, is_dir, crc32_ieee(contents) == expected_crc) == (if crc32_ieee(contents) == expected_crc {
            UpdateAction::Skip
        } else {
            UpdateAction::Fetch
        }),
        update_decision(false, false, false, current) == UpdateAction::Fetch,
        update_decision(false, true, true, current) == UpdateAction::CreateDir,
        update_decision(false, false, true, current) == UpdateAction::Skip,
        update_decision(false, exists, false, current) == UpdateAction::Fetch,
{
}

/// The Unix mode that `update` gives a written file from its external attributes: none for
/// zero attributes, else the high 16 bits.
pub fn permission_mode(external_attr: u32) -> (m: Option<u32>)
    ensures
        m == (if external_attr == 0 {
            None::<u32>
        } else {
            Some((external_attr / 65536) as u32)
        }),
{
    if external_attr == 0 {
        None
    } else {
        assert(external_attr >> 16 == external_attr / 65536) by (bit_vector);
        Some(external_attr >> 16)
    }
}

/// The installers that an installation runs: those whose name contains `exe` for a Windows
/// game, all of them otherwise, in order.
pub fn installers_to_run(names: &Vec<String>, windows: bool) -> (res: Vec<String>)
    ensures
        res@.map_values(|s: String| s@) == names@.map_values(|s: String| s@).filter(
            |n: Seq<char>| !windows || contains(n, "exe"@),
        ),
{
    let ghost pred = |n: Seq<char>| !windows || contains(n, "exe"@);
    let ghost all = names@.map_values(|s: String| s@);
    let mut res: Vec<String> = Vec::new();
    let mut i: usize = 0;
    let exe = chars_of("exe");
    assert(all.take(0) =~= Seq::<Seq<char>>::empty());
    while i < names.len()
        invariant
            i <= names@.len(),
            all == names@.map_values(|s: String| s@),
            exe@ == "exe"@,
            pred == (|n: Seq<char>| !windows || contains(n, "exe"@)),
            res@.map_values(|s: String| s@) == all.take(i as int).filter(pred),
        decreases names@.len() - i,
    {
        let keep = !windows || contains_chars(chars_of(names[i].as_str()).as_slice(), exe.as_slice());
        proof {
            let t = all.take(i + 1);
            assert(t.drop_last() =~= all.take(i as int));
            assert(t.last() == names@[i as int]@);
            lemma_filter_step(t, pred);
            assert(pred(names@[i as int]@) == keep);
        }
        if keep {
            res.push(names[i].clone());
            assert(res@.map_values(|s: String| s@) =~= all.take(i as int).filter(pred).push(names@[i as int]@));
        }
        i += 1;
    }
    assert(all.take(i as int) =~= all);
    res
}

proof fn lemma_filter_step(s: Seq<Seq<char>>, pred: spec_fn(Seq<char>) -> bool)
    requires
        s.len() > 0,
    ensures
        s.filter(pred) == if pred(s.last()) {
            s.drop_last().filter(pred).push(s.last())
        } else {
            s.drop_last().filter(pred)
        },
{
    reveal(Seq::filter);
}

/// Whether `update` treats an installer's file as a directory entry: its name ends with `/`.
pub fn update_entry_is_dir(filename: &str) -> (b: bool)
    ensures
        b == (filename@.len() > 0 && filename@.last() == '/'),
{
    let f = chars_of(filename);
    f.len() > 0 && f[f.len() - 1] == '/'
}

} // verus!
