//! What differs between the operating systems the manager runs on.

use vstd::prelude::*;

verus! {

/// The operating system the manager runs on.
#[derive(Clone, Copy, Debug, PartialEq, Eq, Structural)]
pub enum Platform {
    Linux,
    MacOs,
    Windows,
}

/// The text that separates the entries of a search path.
pub open spec fn separator_text(platform: Platform) -> Seq<char> {
    match platform {
        Platform::Windows => ";"@,
        _ => ":"@,
    }
}

/// The name of the variable that holds the search path for libraries, where
/// the system has one.
pub open spec fn lib_path_var_text(platform: Platform) -> Option<Seq<char>> {
    match platform {
        Platform::Linux => Some("LD_LIBRARY_PATH"@),
        Platform::MacOs => Some("DYLD_LIBRARY_PATH"@),
        Platform::Windows => None,
    }
}

/// The directory the manager keeps everything in.
pub open spec fn homedir_text(platform: Platform) -> Seq<char> {
    match platform {
        Platform::Windows => "C:\\Users\\Public\\xlings\\.xlings_data"@,
        Platform::MacOs => "/Users/xlings/.xlings_data"@,
        Platform::Linux => "/home/xlings/.xlings_data"@,
    }
}

/// The directory the manager keeps its own files in.
pub open spec fn datadir_text(platform: Platform) -> Seq<char> {
    match platform {
        Platform::Windows => "C:/Users/Public/xlings/.xlings_data/xvm"@,
        Platform::MacOs => "/Users/xlings/.xlings_data/xvm"@,
        Platform::Linux => "/home/xlings/.xlings_data/xvm"@,
    }
}

/// The text between the parts of a file path.
pub open spec fn path_joint_text(platform: Platform) -> Seq<char> {
    match platform {
        Platform::Windows => "\\"@,
        _ => "/"@,
    }
}

impl Platform {
    /// The text that separates the entries of a search path.
    pub fn separator(self) -> (r: &'static str)
        ensures
            r@ == separator_text(self),
    {
        match self {
            Platform::Windows => ";",
            _ => ":",
        }
    }

    /// The name of the variable that holds the search path for libraries.
    pub fn lib_path_var(self) -> (r: Option<&'static str>)
        ensures
            match r {
                Some(name) => lib_path_var_text(self) == Some(name@),
                None => lib_path_var_text(self) is None,
            },
    {
        match self {
            Platform::Linux => Some("LD_LIBRARY_PATH"),
            Platform::MacOs => Some("DYLD_LIBRARY_PATH"),
            Platform::Windows => None,
        }
    }

    /// The text between the parts of a file path.
    pub fn path_joint(self) -> (r: &'static str)
        ensures
            r@ == path_joint_text(self),
    {
        match self {
            Platform::Windows => "\\",
            _ => "/",
        }
    }

    /// Whether a spawn that finds no interpreter for the binary can be tried
    /// again through the system's loader.
    pub fn has_loader_fallback(self) -> (r: bool)
        ensures
            r == (self == Platform::Linux),
    {
        match self {
            Platform::Linux => true,
            _ => false,
        }
    }
}

/// The directory the manager keeps everything in.
pub fn xvm_homedir(platform: Platform) -> (r: String)
    ensures
        r@ == homedir_text(platform),
{
    match platform {
        Platform::Windows => String::from_str("C:\\Users\\Public\\xlings\\.xlings_data"),
        Platform::MacOs => String::from_str("/Users/xlings/.xlings_data"),
        Platform::Linux => String::from_str("/home/xlings/.xlings_data"),
    }
}

/// The directory the manager keeps its own files in.
pub fn xvm_datadir(platform: Platform) -> (r: String)
    ensures
        r@ == datadir_text(platform),
{
    match platform {
        Platform::Windows => String::from_str("C:/Users/Public/xlings/.xlings_data/xvm"),
        Platform::MacOs => String::from_str("/Users/xlings/.xlings_data/xvm"),
        Platform::Linux => String::from_str("/home/xlings/.xlings_data/xvm"),
    }
}

} // verus!
