use vstd::prelude::*;
use crate::text::{chars_of, nat_decimal, push_all, string_of, u64_decimal};

verus! {

/// Where a GOG Connect game stands.
#[derive(Debug, PartialEq, Eq, Structural, Clone, Copy)]
pub enum ConnectGameStatus {
    Imported,
    ReadyToLink,
    Unavailable,
}

/// How a status is printed.
pub open spec fn status_name(s: ConnectGameStatus) -> Seq<char> {
    match s {
        ConnectGameStatus::Imported => "Imported"@,
        ConnectGameStatus::ReadyToLink => "ReadyToLink"@,
        ConnectGameStatus::Unavailable => "Unavailable"@,
    }
}

/// Each status is printed under its own name, and different statuses under different
/// names.
pub proof fn law_status_names(a: ConnectGameStatus, b: ConnectGameStatus)
    ensures
        status_name(ConnectGameStatus::Imported) == "Imported"@,
        status_name(ConnectGameStatus::ReadyToLink) == "ReadyToLink"@,
        status_name(ConnectGameStatus::Unavailable) == "Unavailable"@,
        status_name(a) == status_name(b) ==> a == b,
{
    reveal_strlit("Imported");
    reveal_strlit("ReadyToLink");
    reveal_strlit("Unavailable");
    if status_name(a) == status_name(b) && a != b {
        assert(status_name(a)[0] == status_name(b)[0]);
        assert(status_name(a).len() == status_name(b).len());
    }
}

/// Whether `connect ls` shows a game: all are shown, or with `claim` only those ready to
/// be claimed.
pub fn connect_game_shown(claim: bool, status: ConnectGameStatus) -> (b: bool)
    ensures
        b == (!claim || status == ConnectGameStatus::ReadyToLink),
{
    !claim || status == ConnectGameStatus::ReadyToLink
}

/// The line `connect ls` prints for a game: its title alone when `quiet`, else its title,
/// ` - ` and its status.
pub fn connect_line(title: &str, status: ConnectGameStatus, quiet: bool) -> (line: String)
    ensures
        line@ == (if quiet {
            title@
        } else {
            title@ + " - "@ + status_name(status)
        }),
{
    if quiet {
        return String::from_str(title);
    }
    let mut l = chars_of(title);
    push_all(&mut l, chars_of(" - ").as_slice());
    let name = match status {
        ConnectGameStatus::Imported => chars_of("Imported"),
        ConnectGameStatus::ReadyToLink => chars_of("ReadyToLink"),
        ConnectGameStatus::Unavailable => chars_of("Unavailable"),
    };
    push_all(&mut l, name.as_slice());
    string_of(l.as_slice())
}

/// What `connect ls` gathers: the shown games with their titles, and how many were left out.
pub struct ConnectListing {
    pub games: Vec<(String, ConnectGameStatus)>,
    pub hidden: u64,
}

impl ConnectListing {
    /// Nothing gathered yet.
    pub fn new() -> (l: ConnectListing)
        ensures
            l.games@.len() == 0,
            l.hidden == 0,
    {
        ConnectListing { games: Vec::new(), hidden: 0 }
    }

    /// Records one game: it is listed under its title when it is shown and its title could
    /// be fetched (`title` is then `Some`), and counted as left out otherwise.
    pub fn record(&mut self, title: Option<String>, status: ConnectGameStatus)
        requires
            old(self).hidden < u64::MAX,
        ensures
            match title {
                Some(t) => final(self).games@ == old(self).games@.push((t, status)) && final(self).hidden
                    == old(self).hidden,
                None => final(self).games@ == old(self).games@ && final(self).hidden == old(self).hidden
                    + 1,
            },
    {
        match title {
            Some(t) => self.games.push((t, status)),
            None => self.hidden = self.hidden + 1,
        }
    }
}

/// The closing line of `connect ls`: how many games were left out.
pub fn hidden_summary(hidden: u64) -> (line: String)
    ensures
        line@ == nat_decimal(hidden as nat) + " items not shown due to options"@,
{
    let mut l = u64_decimal(hidden);
    push_all(&mut l, chars_of(" items not shown due to options").as_slice());
    string_of(l.as_slice())
}

} // verus!
