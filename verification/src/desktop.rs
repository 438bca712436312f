//! Desktop shortcuts: where the file of a shortcut stands and what it holds.

use crate::platform::Platform;
use crate::text::join3;
use vstd::prelude::*;

verus! {

/// What a shortcut is made from.
#[derive(Clone, Debug)]
pub struct ShortcutOptions {
    /// The name shown.
    pub name: String,
    /// The program to run.
    pub exec_path: String,
    /// A description of the shortcut.
    pub description: Option<String>,
    /// The file of the icon.
    pub icon_path: Option<String>,
    /// The directory to run in; Windows alone uses it.
    pub working_dir: Option<String>,
    /// Whether the program runs in a terminal; Linux alone uses it.
    pub terminal: bool,
}

/// The directory that holds the shortcuts of all users.
pub open spec fn shortcut_root_text(platform: Platform) -> Seq<char> {
    match platform {
        Platform::Windows => "C:\\ProgramData\\Microsoft\\Windows\\Start Menu\\Programs"@,
        _ => "/usr/share/applications"@,
    }
}

/// The directory that holds the shortcuts of all users.
pub fn shortcut_root_dir(platform: Platform) -> (r: &'static str)
    ensures
        r@ == shortcut_root_text(platform),
{
    match platform {
        Platform::Windows => "C:\\ProgramData\\Microsoft\\Windows\\Start Menu\\Programs",
        _ => "/usr/share/applications",
    }
}

/// The directory that holds the shortcuts of one user: on Windows the
/// public desktop, elsewhere the applications directory under the home
/// directory, which is `/root` where none is known.
pub open spec fn shortcut_userdir_text(platform: Platform, home: Option<Seq<char>>) -> Seq<char> {
    match platform {
        Platform::Windows => "C:\\Users\\Public\\Desktop"@,
        _ => (match home {
            Some(h) => h,
            None => "/root"@,
        }) + "/"@ + ".local/share/applications"@,
    }
}

/// The directory that holds the shortcuts of one user.
pub fn shortcut_userdir(platform: Platform, home: Option<&str>) -> (r: String)
    ensures
        r@ == shortcut_userdir_text(
            platform,
            match home {
                Some(h) => Some(h@),
                None => None,
            },
        ),
{
    match platform {
        Platform::Windows => String::from_str("C:\\Users\\Public\\Desktop"),
        _ => {
            let base = match home {
                Some(h) => h,
                None => "/root",
            };
            join3(base, "/", ".local/share/applications")
        },
    }
}

/// The file of the shortcut `name` in `dir`.
pub open spec fn shortcut_path_text(
    dir: Seq<char>,
    name: Seq<char>,
    platform: Platform,
) -> Seq<char> {
    match platform {
        Platform::Windows => dir + "\\"@ + name + ".xvm.lnk"@,
        _ => dir + "/"@ + name + ".xvm.desktop"@,
    }
}

/// The file of the shortcut `name` in `dir`.
pub fn shortcut_path_format(dir: &str, name: &str, platform: Platform) -> (r: String)
    ensures
        r@ == shortcut_path_text(dir@, name@, platform),
{
    match platform {
        Platform::Windows => {
            let mut r = join3(dir, "\\", name);
            r.append(".xvm.lnk");
            r
        },
        _ => {
            let mut r = join3(dir, "/", name);
            r.append(".xvm.desktop");
            r
        },
    }
}

/// What the file of a shortcut holds on Linux.
pub open spec fn desktop_entry_text(
    name: Seq<char>,
    exec_path: Seq<char>,
    icon_path: Option<Seq<char>>,
    terminal: bool,
) -> Seq<char> {
    let icon = match icon_path {
        Some(i) => i,
        None => Seq::empty(),
    };
    let shown = if terminal {
        "true"@
    } else {
        "false"@
    };
    "[Desktop Entry]\nVersion=1.0\nName="@ + name + "\nExec="@ + exec_path + "\nIcon="@ + icon
        + "\nType=Application\nTerminal="@ + shown + "\n"@
}

/// What the file of a shortcut holds on Linux.
pub fn desktop_entry(options: &ShortcutOptions) -> (r: String)
    ensures
        r@ == desktop_entry_text(
            options.name@,
            options.exec_path@,
            crate::versiondb::opt_text(options.icon_path),
            options.terminal,
        ),
{
    let mut r = String::from_str("[Desktop Entry]\nVersion=1.0\nName=");
    r.append(options.name.as_str());
    r.append("\nExec=");
    r.append(options.exec_path.as_str());
    r.append("\nIcon=");
    match &options.icon_path {
        Some(i) => {
            r.append(i.as_str());
        },
        None => {
            assert(r@ + Seq::<char>::empty() =~= r@);
        },
    }
    r.append("\nType=Application\nTerminal=");
    if options.terminal {
        r.append("true");
    } else {
        r.append("false");
    }
    r.append("\n");
    r
}

} // verus!
