use vstd::prelude::*;
use crate::paths::{join_path, path_join};
use crate::text::{chars_of, push_all, string_of};

verus! {

/// The desktop entry of an installed game at the absolute path `path`.
pub open spec fn desktop_entry(name: Seq<char>, path: Seq<char>) -> Seq<char> {
    "[Desktop Entry]\nEncoding=UTF-8\nValue=1.0\nType=Application\nName="@ + name + "\nGenericName="@ + name
        + "\nComment="@ + name + "\nIcon="@ + path_join(path, "support/icon.png"@) + "\nExec=\""@
        + path_join(path, "start.sh"@) + "\" \"\"\nCategories=Game;\nPath="@ + path
}

/// Writes the desktop entry of the game `name` installed at the absolute path `path`.
pub fn desktop_shortcut(name: &str, path: &str) -> (text: String)
    ensures
        text@ == desktop_entry(name@, path@),
{
    let n = chars_of(name);
    let p = chars_of(path);
    let mut t = chars_of("[Desktop Entry]\nEncoding=UTF-8\nValue=1.0\nType=Application\nName=");
    push_all(&mut t, n.as_slice());
    push_all(&mut t, chars_of("\nGenericName=").as_slice());
    push_all(&mut t, n.as_slice());
    push_all(&mut t, chars_of("\nComment=").as_slice());
    push_all(&mut t, n.as_slice());
    push_all(&mut t, chars_of("\nIcon=").as_slice());
    push_all(&mut t, join_path(p.as_slice(), chars_of("support/icon.png").as_slice()).as_slice());
    push_all(&mut t, chars_of("\nExec=\"").as_slice());
    push_all(&mut t, join_path(p.as_slice(), chars_of("start.sh").as_slice()).as_slice());
    push_all(&mut t, chars_of("\" \"\"\nCategories=Game;\nPath=").as_slice());
    push_all(&mut t, p.as_slice());
    string_of(t.as_slice())
}

/// Where the application-menu entry of the game `name` goes, below the home directory.
pub fn menu_shortcut_path(home: &str, name: &str) -> (p: String)
    ensures
        p@ == path_join(home@, ".local/share/applications/gog_com-"@ + name@ + "_1.desktop"@),
{
    let mut f = chars_of(".local/share/applications/gog_com-");
    push_all(&mut f, chars_of(name).as_slice());
    push_all(&mut f, chars_of("_1.desktop").as_slice());
    string_of(join_path(chars_of(home).as_slice(), f.as_slice()).as_slice())
}

/// Where the desktop entry of the game `name` goes, below the home directory.
pub fn desktop_shortcut_path(home: &str, name: &str) -> (p: String)
    ensures
        p@ == path_join(home@, "Desktop/gog_com-"@ + name@ + "_1.desktop"@),
{
    let mut f = chars_of("Desktop/gog_com-");
    push_all(&mut f, chars_of(name).as_slice());
    push_all(&mut f, chars_of("_1.desktop").as_slice());
    string_of(join_path(chars_of(home).as_slice(), f.as_slice()).as_slice())
}

} // verus!
