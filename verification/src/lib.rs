//! A per-machine version manager for command-line tools and libraries.
//!
//! The registry (`versiondb`) records, for each target, its installed
//! versions and how each is run. A workspace (`workspace`) selects one
//! version per target, globally or for one directory. Selecting a version
//! carries along the versions bound to it (`resolver`). A selected version
//! is launched as a program with an environment composed for it, through
//! shims that stand for the target in the bin directory (`shims`). The
//! manager's actions on a loaded registry and workspace are in `handler`.
//!
//! Nothing here touches the file system or starts a process: each function
//! takes what was read and returns what is to be written or done.

pub mod baseinfo;
pub mod desktop;
pub mod handler;
pub mod helper;
pub mod ordered;
pub mod platform;
pub mod resolver;
pub mod shims;
pub mod text;
pub mod version;
pub mod versiondb;
pub mod workspace;

pub use crate::versiondb::VersionDB;
pub use crate::workspace::Workspace;
