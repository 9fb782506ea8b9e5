use vstd::prelude::*;
use crate::text::{i64_decimal, int_decimal, string_of};

verus! {

/// The entries of the interactive main menu, in the order they are shown.
#[derive(Debug, PartialEq, Eq)]
pub enum MenuItem {
    List,
    Download,
    Extras,
    Connect,
}

/// The main menu entry at a position of the menu.
pub fn menu_item(pick: usize) -> (item: MenuItem)
    requires
        pick < 4,
    ensures
        item == (if pick == 0 {
            MenuItem::List
        } else if pick == 1 {
            MenuItem::Download
        } else if pick == 2 {
            MenuItem::Extras
        } else {
            MenuItem::Connect
        }),
{
    if pick == 0 {
        MenuItem::List
    } else if pick == 1 {
        MenuItem::Download
    } else if pick == 2 {
        MenuItem::Extras
    } else {
        MenuItem::Connect
    }
}

/// The labels of the main menu, in order.
pub fn menu_labels() -> (labels: Vec<&'static str>)
    ensures
        labels@.len() == 4,
        labels@[0]@ == "List"@,
        labels@[1]@ == "Download"@,
        labels@[2]@ == "Extras"@,
        labels@[3]@ == "Connect"@,
{
    let mut labels: Vec<&'static str> = Vec::new();
    labels.push("List");
    labels.push("Download");
    labels.push("Extras");
    labels.push("Connect");
    labels
}

/// The command line that listing the library from the menu runs.
pub fn list_args() -> (args: Vec<String>)
    ensures
        args@.len() == 2,
        args@[0]@ == "wyvern"@,
        args@[1]@ == "list"@,
{
    let mut args: Vec<String> = Vec::new();
    args.push(String::from_str("wyvern"));
    args.push(String::from_str("list"));
    args
}

/// The command line that downloads the game `id` from the menu; with `install_to`, it also
/// installs the game into that directory.
pub fn download_args(id: i64, install_to: Option<&str>) -> (args: Vec<String>)
    ensures
        args@.len() == (if install_to is Some {
            6nat
        } else {
            4nat
        }),
        args@[0]@ == "wyvern"@,
        args@[1]@ == "download"@,
        args@[2]@ == "--id"@,
        args@[3]@ == int_decimal(id as int),
        install_to matches Some(dir) ==> args@[4]@ == "--install"@ && args@[5]@ == dir@,
{
    let mut args: Vec<String> = Vec::new();
    args.push(String::from_str("wyvern"));
    args.push(String::from_str("download"));
    args.push(String::from_str("--id"));
    args.push(string_of(i64_decimal(id).as_slice()));
    match install_to {
        Some(dir) => {
            args.push(String::from_str("--install"));
            args.push(String::from_str(dir));
        },
        None => {},
    }
    args
}

/// The command line that downloads the extras of the game titled `title` from the menu.
pub fn extras_args(title: &str) -> (args: Vec<String>)
    ensures
        args@.len() == 4,
        args@[0]@ == "wyvern"@,
        args@[1]@ == "extras"@,
        args@[2]@ == "--first"@,
        args@[3]@ == title@,
{
    let mut args: Vec<String> = Vec::new();
    args.push(String::from_str("wyvern"));
    args.push(String::from_str("extras"));
    args.push(String::from_str("--first"));
    args.push(String::from_str(title));
    args
}

/// The entries of the interactive GOG Connect menu, in the order they are shown.
#[derive(Debug, PartialEq, Eq)]
pub enum ConnectItem {
    Claim,
    List,
    Quit,
}

/// The GOG Connect menu entry at a position of the menu.
pub fn connect_item(pick: usize) -> (item: ConnectItem)
    requires
        pick < 3,
    ensures
        item == (if pick == 0 {
            ConnectItem::Claim
        } else if pick == 1 {
            ConnectItem::List
        } else {
            ConnectItem::Quit
        }),
{
    if pick == 0 {
        ConnectItem::Claim
    } else if pick == 1 {
        ConnectItem::List
    } else {
        ConnectItem::Quit
    }
}

/// The labels of the GOG Connect menu, in order.
pub fn connect_labels() -> (labels: Vec<&'static str>)
    ensures
        labels@.len() == 3,
        labels@[0]@ == "Claim"@,
        labels@[1]@ == "List"@,
        labels@[2]@ == "Quit"@,
{
    let mut labels: Vec<&'static str> = Vec::new();
    labels.push("Claim");
    labels.push("List");
    labels.push("Quit");
    labels
}

/// The command line that a GOG Connect menu entry runs; `Quit` leaves the menu and runs
/// none.
pub fn connect_args(item: ConnectItem) -> (args: Option<Vec<String>>)
    ensures
        match item {
            ConnectItem::Quit => args is None,
            ConnectItem::Claim => args matches Some(a) && a@.len() == 3 && a@[0]@ == "wyvern"@ && a@[1]@
                == "connect"@ && a@[2]@ == "claim"@,
            ConnectItem::List => args matches Some(a) && a@.len() == 3 && a@[0]@ == "wyvern"@ && a@[1]@
                == "connect"@ && a@[2]@ == "list"@,
        },
{
    let action = match item {
        ConnectItem::Quit => {
            return None;
        },
        ConnectItem::Claim => String::from_str("claim"),
        ConnectItem::List => String::from_str("list"),
    };
    let mut args: Vec<String> = Vec::new();
    args.push(String::from_str("wyvern"));
    args.push(String::from_str("connect"));
    args.push(action);
    Some(args)
}

} // verus!
