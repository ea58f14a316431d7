use vstd::prelude::*;
use crate::package::FileType;

verus! {

/// A package installed on the system, as the database records it.
#[derive(Debug, Clone)]
pub struct InstalledPackage {
    pub name: String,
    pub version: String,
    pub release: u32,
    pub description: String,
    pub arch: String,
    pub license: String,
    pub installed_size: u64,
    pub install_date: i64,
    pub install_reason: InstallReason,
    pub group_name: Option<String>,
    pub url: Option<String>,
    pub maintainer: Option<String>,
}

/// Why a package is installed.
#[derive(Debug, Clone, Copy, PartialEq, Eq, Structural)]
pub enum InstallReason {
    /// Installed at the user's request.
    Explicit,
    /// Installed as a dependency.
    Dependency,
}

impl InstallReason {
    /// The number the database stores: 0 for explicit, 1 for a dependency.
    pub fn code(self) -> (r: u8)
        ensures
            r == (if self == InstallReason::Explicit { 0u8 } else { 1u8 }),
    {
        match self {
            InstallReason::Explicit => 0,
            InstallReason::Dependency => 1,
        }
    }

    /// The reason a stored number stands for: 0 is explicit, anything else a dependency.
    pub fn from_code(c: u8) -> (r: InstallReason)
        ensures
            r == (if c == 0 { InstallReason::Explicit } else { InstallReason::Dependency }),
    {
        if c == 0 {
            InstallReason::Explicit
        } else {
            InstallReason::Dependency
        }
    }
}

/// Reading back the stored number of a reason gives the reason.
pub proof fn lemma_install_reason_roundtrip(r: InstallReason)
    ensures
        (if (if r == InstallReason::Explicit { 0u8 } else { 1u8 }) == 0 { InstallReason::Explicit } else { InstallReason::Dependency }) == r,
{
}

/// The name the database stores for a file type.
pub fn file_type_name(t: &FileType) -> (r: &'static str)
    ensures
        r@ == match t {
            FileType::File => "file"@,
            FileType::Dir => "dir"@,
            FileType::Symlink => "symlink"@,
            FileType::Hardlink => "hardlink"@,
        },
{
    match t {
        FileType::File => "file",
        FileType::Dir => "dir",
        FileType::Symlink => "symlink",
        FileType::Hardlink => "hardlink",
    }
}

/// Counts about the package database.
#[derive(Debug)]
pub struct DbStats {
    pub total_packages: u64,
    pub explicit_packages: u64,
    pub dep_packages: u64,
    pub total_files: u64,
    pub total_size_bytes: u64,
    pub orphans: u64,
}

} // verus!
