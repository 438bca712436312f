//! Where the manager keeps its files.

use crate::platform::{
    datadir_text, homedir_text, path_joint_text, xvm_datadir, xvm_homedir, Platform,
};
use crate::text::{join3, pair_texts, Pairs};
use vstd::prelude::*;

verus! {

/// The name of a workspace file, in the data directory and in any directory
/// that has a workspace of its own.
pub const WORKSPACE_FILE: &'static str = ".workspace.xvm.yaml";

/// The file the registry is kept in.
pub fn versiondb_file(platform: Platform) -> (r: String)
    ensures
        r@ == datadir_text(platform) + "/"@ + "versions.xvm.yaml"@,
{
    join3(xvm_datadir(platform).as_str(), "/", "versions.xvm.yaml")
}

/// The file the global workspace is kept in.
pub fn workspace_file(platform: Platform) -> (r: String)
    ensures
        r@ == datadir_text(platform) + "/"@ + ".workspace.xvm.yaml"@,
{
    join3(xvm_datadir(platform).as_str(), "/", ".workspace.xvm.yaml")
}

/// The directory the shims are in.
pub fn bindir(platform: Platform) -> (r: String)
    ensures
        r@ == homedir_text(platform) + path_joint_text(platform) + "bin"@,
{
    join3(xvm_homedir(platform).as_str(), platform.path_joint(), "bin")
}

/// The directory the links to selected libraries are in.
pub fn libdir(platform: Platform) -> (r: String)
    ensures
        r@ == homedir_text(platform) + path_joint_text(platform) + "lib"@,
{
    join3(xvm_homedir(platform).as_str(), platform.path_joint(), "lib")
}

/// The directory that holds the shim and library directories.
pub fn workspacedir(platform: Platform) -> (r: String)
    ensures
        r@ == homedir_text(platform),
{
    xvm_homedir(platform)
}

/// The directory the shim sources are kept in.
pub fn shimdir(platform: Platform) -> (r: String)
    ensures
        r@ == datadir_text(platform) + "/"@ + "shims"@,
{
    join3(xvm_datadir(platform).as_str(), "/", "shims")
}

/// The names that a record may refer to as `${name}`, each with the
/// directory it stands for.
pub open spec fn placeholder_texts(platform: Platform) -> Pairs {
    seq![
        ("XVM_HOME"@, homedir_text(platform)),
        ("XVM_DATA"@, datadir_text(platform)),
        ("XVM_BINDIR"@, homedir_text(platform) + path_joint_text(platform) + "bin"@),
        ("XVM_LIBDIR"@, homedir_text(platform) + path_joint_text(platform) + "lib"@),
    ]
}

/// The names that a record may refer to as `${name}`, each with the
/// directory it stands for.
pub fn placeholder_vars(platform: Platform) -> (r: Vec<(String, String)>)
    ensures
        pair_texts(r@) == placeholder_texts(platform),
{
    let mut out: Vec<(String, String)> = Vec::new();
    out.push((String::from_str("XVM_HOME"), xvm_homedir(platform)));
    out.push((String::from_str("XVM_DATA"), xvm_datadir(platform)));
    out.push((String::from_str("XVM_BINDIR"), bindir(platform)));
    out.push((String::from_str("XVM_LIBDIR"), libdir(platform)));
    assert(pair_texts(out@) =~= placeholder_texts(platform));
    out
}

} // verus!
