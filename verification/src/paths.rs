use vstd::prelude::*;
use std::path::Path;
use crate::text::{chars_of, push_all, string_of};

verus! {

/// `rel` appended to `base` as `PathBuf::push` and `Path::join` do it on Unix: an absolute
/// `rel` replaces `base`; otherwise a separator goes between them unless `base` is empty or
/// already ends with one.
pub open spec fn path_join(base: Seq<char>, rel: Seq<char>) -> Seq<char> {
    if rel.len() > 0 && rel[0] == '/' {
        rel
    } else if base.len() == 0 || base.last() == '/' {
        base + rel
    } else {
        base + seq!['/'] + rel
    }
}

/// Joining keeps `rel` whole at the end. An absolute `rel` is the whole result; otherwise
/// the result starts with `base`, and when `base` is not empty exactly one `/` stands
/// between the two, the one `base` ends with or an added one.
pub proof fn law_join(base: Seq<char>, rel: Seq<char>)
    ensures
        path_join(base, rel).len() >= rel.len(),
        path_join(base, rel).skip(path_join(base, rel).len() - rel.len()) == rel,
        rel.len() > 0 && rel[0] == '/' ==> path_join(base, rel) == rel,
        !(rel.len() > 0 && rel[0] == '/') ==> path_join(base, rel).take(base.len() as int) == base,
        !(rel.len() > 0 && rel[0] == '/') && base.len() > 0 ==> {
            &&& path_join(base, rel)[path_join(base, rel).len() - rel.len() - 1] == '/'
            &&& path_join(base, rel).len() - rel.len() - 1 <= base.len()
            &&& (path_join(base, rel).len() - rel.len() - 1 == base.len() - 1) == (base.last() == '/')
        },
        base.len() == 0 ==> path_join(base, rel) == rel,
{
    let j = path_join(base, rel);
    if rel.len() > 0 && rel[0] == '/' {
        assert(j.skip(0) =~= rel);
    } else if base.len() == 0 || base.last() == '/' {
        assert(j.skip(base.len() as int) =~= rel);
        assert(j.take(base.len() as int) =~= base);
        if base.len() == 0 {
            assert(j =~= rel);
        } else {
            assert(j[base.len() - 1] == base.last());
        }
    } else {
        assert(j.skip(base.len() + 1int) =~= rel);
        assert(j.take(base.len() as int) =~= base);
        assert(j[base.len() as int] == '/');
    }
}

/// `Path::join` on paths given as characters.
pub fn join_path(base: &[char], rel: &[char]) -> (res: Vec<char>)
    ensures
        res@ == path_join(base@, rel@),
{
    let mut res: Vec<char> = Vec::new();
    if rel.len() > 0 && rel[0] == '/' {
        push_all(&mut res, rel);
    } else if base.len() == 0 || base[base.len() - 1] == '/' {
        push_all(&mut res, base);
        push_all(&mut res, rel);
    } else {
        push_all(&mut res, base);
        res.push('/');
        push_all(&mut res, rel);
    }
    res
}

/// What `Path::file_name` gives for a path.
pub uninterp spec fn path_file_name(p: Seq<char>) -> Option<Seq<char>>;

/// The index of the last `.` in `f`, or -1 when it has none.
pub open spec fn last_dot(f: Seq<char>) -> int
    decreases f.len(),
{
    if f.len() == 0 {
        -1
    } else if f.last() == '.' {
        f.len() - 1
    } else {
        last_dot(f.drop_last())
    }
}

/// The extension of a file name: what follows its last `.`; none when it has no `.`, or
/// when its only `.` is the first character.
pub open spec fn file_name_extension(f: Seq<char>) -> Option<Seq<char>> {
    if last_dot(f) <= 0 {
        None
    } else {
        Some(f.skip(last_dot(f) + 1))
    }
}

proof fn lemma_last_dot(f: Seq<char>)
    ensures
        -1 <= last_dot(f) < f.len(),
        last_dot(f) >= 0 ==> f[last_dot(f)] == '.',
        forall|k: int| last_dot(f) < k < f.len() ==> #[trigger] f[k] != '.',
    decreases f.len(),
{
    if f.len() > 0 && f.last() != '.' {
        let t = f.drop_last();
        lemma_last_dot(t);
        assert forall|k: int| last_dot(f) < k < f.len() implies #[trigger] f[k] != '.' by {
            if k < f.len() - 1 {
                assert(f[k] == t[k]);
            }
        }
        if last_dot(f) >= 0 {
            assert(f[last_dot(f)] == t[last_dot(t)]);
        }
    }
}

/// An extension is what follows the last `.` of the file name, where that `.` is not its
/// first character; a file name without such a `.` has none.
pub proof fn law_file_name_extension(f: Seq<char>)
    ensures
        match file_name_extension(f) {
            Some(e) => exists|i: int|
                0 < i < f.len() && f == f.take(i) + seq!['.'] + e && (forall|k: int| 0 <= k < e.len() ==> #[trigger] e[k] != '.'),
            None => forall|k: int| 0 < k < f.len() ==> #[trigger] f[k] != '.',
        },
{
    lemma_last_dot(f);
    let d = last_dot(f);
    if d > 0 {
        let e = f.skip(d + 1);
        assert(f =~= f.take(d) + seq!['.'] + e);
        assert forall|k: int| 0 <= k < e.len() implies #[trigger] e[k] != '.' by {
            assert(e[k] == f[d + 1 + k]);
        }
    }
}

/// What `Path::extension` gives for a path: the extension of its file name, none when it
/// has no file name.
pub open spec fn path_extension(p: Seq<char>) -> Option<Seq<char>> {
    match path_file_name(p) {
        Some(f) => file_name_extension(f),
        None => None,
    }
}

/// What `Path::with_file_name` gives for a path and a file name.
pub uninterp spec fn path_with_file_name(p: Seq<char>, name: Seq<char>) -> Seq<char>;

/// What `Path::parent` gives for a path.
pub uninterp spec fn path_parent(p: Seq<char>) -> Option<Seq<char>>;

/// Calls `Path::file_name`. Trusted: the result is `path_file_name` of the path; the file
/// name of a path made from UTF-8 text is UTF-8 text, so it converts without loss.
#[verifier::external_body]
fn std_file_name(p: &str) -> (res: Option<String>)
    ensures
        match res {
            Some(n) => path_file_name(p@) == Some(n@),
            None => path_file_name(p@) is None,
        },
{
    match Path::new(p).file_name() {
        Some(n) => Some(n.to_string_lossy().into_owned()),
        None => None,
    }
}

/// Calls `Path::extension`. Trusted: as its documentation says, the result is none when
/// the path has no file name, none when the file name has no `.` or begins with its only
/// `.`, and otherwise the part of the file name after its last `.` (`path_extension`).
#[verifier::external_body]
fn std_extension(p: &str) -> (res: Option<String>)
    ensures
        match res {
            Some(e) => path_extension(p@) == Some(e@),
            None => path_extension(p@) is None,
        },
{
    match Path::new(p).extension() {
        Some(e) => Some(e.to_string_lossy().into_owned()),
        None => None,
    }
}

/// Calls `Path::with_file_name`. Trusted: the result is `path_with_file_name` of the
/// arguments.
#[verifier::external_body]
fn std_with_file_name(p: &str, name: &str) -> (res: String)
    ensures
        res@ == path_with_file_name(p@, name@),
{
    Path::new(p).with_file_name(name).to_string_lossy().into_owned()
}

/// Calls `Path::parent`. Trusted: the result is `path_parent` of the path.
#[verifier::external_body]
fn std_parent(p: &str) -> (res: Option<String>)
    ensures
        match res {
            Some(q) => path_parent(p@) == Some(q@),
            None => path_parent(p@) is None,
        },
{
    match Path::new(p).parent() {
        Some(q) => Some(q.to_string_lossy().into_owned()),
        None => None,
    }
}

/// The file name of a path, as characters.
pub fn file_name_of(p: &[char]) -> (res: Option<Vec<char>>)
    ensures
        match res {
            Some(n) => path_file_name(p@) == Some(n@),
            None => path_file_name(p@) is None,
        },
{
    let s = string_of(p);
    match std_file_name(s.as_str()) {
        Some(n) => Some(chars_of(n.as_str())),
        None => None,
    }
}

/// The extension of a path, as characters.
pub fn extension_of(p: &[char]) -> (res: Option<Vec<char>>)
    ensures
        match res {
            Some(e) => path_extension(p@) == Some(e@),
            None => path_extension(p@) is None,
        },
{
    let s = string_of(p);
    match std_extension(s.as_str()) {
        Some(e) => Some(chars_of(e.as_str())),
        None => None,
    }
}

/// A path with its file name replaced, as characters.
pub fn with_file_name_of(p: &[char], name: &[char]) -> (res: Vec<char>)
    ensures
        res@ == path_with_file_name(p@, name@),
{
    let s = string_of(p);
    let n = string_of(name);
    let r = std_with_file_name(s.as_str(), n.as_str());
    chars_of(r.as_str())
}

/// The parent of a path, as characters.
pub fn parent_of(p: &[char]) -> (res: Option<Vec<char>>)
    ensures
        match res {
            Some(q) => path_parent(p@) == Some(q@),
            None => path_parent(p@) is None,
        },
{
    let s = string_of(p);
    match std_parent(s.as_str()) {
        Some(q) => Some(chars_of(q.as_str())),
        None => None,
    }
}

} // verus!
