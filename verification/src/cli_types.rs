use vstd::prelude::*;
use crate::text::chars_of;

verus! {

/// The subcommands of the `pag` command line.
#[derive(Debug, Clone)]
pub enum Commands {
    /// Install packages.
    Install { packages: Vec<String>, as_deps: bool, overwrite: bool, ignore_deps: bool },
    /// Remove packages.
    Remove { packages: Vec<String>, recursive: bool, nosave: bool },
    /// Update the package lists and the packages.
    Update { refresh_only: bool, packages: Vec<String> },
    /// Search for packages.
    Search { query: Vec<String>, verbose: bool, installed: bool, quiet: bool },
    /// Show a package.
    Info { package: String, local: bool },
    /// List installed packages.
    List { explicit: bool, deps: bool, orphans: bool, group: Option<String> },
    /// Download packages without installing them.
    Download { packages: Vec<String>, output: String },
    /// Check the files of installed packages.
    Check { packages: Vec<String>, fix: bool },
    /// Clean the package cache.
    Clean { all: bool, unused: bool },
    /// Manage repositories.
    Repo { action: RepoCommand },
    /// Manage Flatpak applications.
    Flatpak { action: FlatpakCommand },
    /// Manage signing keys.
    Key { action: KeyCommand },
    /// Query the package database.
    Query { action: QueryCommand },
    /// Show statistics.
    Stats,
    /// Write a default configuration.
    Init { config: String },
}

/// `pag repo` actions.
#[derive(Debug, Clone)]
pub enum RepoCommand {
    Add { name: String, url: String },
    Remove { name: String },
    List,
    Update { name: Option<String> },
}

/// `pag flatpak` actions.
#[derive(Debug, Clone)]
pub enum FlatpakCommand {
    Install { packages: Vec<String> },
    Remove { packages: Vec<String> },
    Search { query: Vec<String> },
    Update,
    List,
    RemoteAdd { name: String, url: String },
}

/// `pag key` actions.
#[derive(Debug, Clone)]
pub enum KeyCommand {
    Import { keyfile: String },
    Export { keyid: String },
    List,
    Fetch { keyid: String },
    Remove { keyid: String },
}

/// `pag query` actions.
#[derive(Debug, Clone)]
pub enum QueryCommand {
    Owner { file: String },
    Files { package: String },
    Depends { package: String },
    RequiredBy { package: String },
}

/// The commands that change the installed system: install, remove,
/// update, and a check that repairs.
pub open spec fn changes_system(c: Commands) -> bool {
    match c {
        Commands::Install { .. } => true,
        Commands::Remove { .. } => true,
        Commands::Update { .. } => true,
        Commands::Check { fix, .. } => fix,
        _ => false,
    }
}

/// Decides `changes_system`.
pub fn needs_root(command: &Commands) -> (r: bool)
    ensures
        r == changes_system(*command),
{
    match command {
        Commands::Install { .. } => true,
        Commands::Remove { .. } => true,
        Commands::Update { .. } => true,
        Commands::Check { fix, .. } => *fix,
        _ => false,
    }
}

/// A command that may not run with the caller's rights.
#[derive(Debug, Clone, Copy, PartialEq, Eq, Structural)]
pub enum PermissionError {
    /// The command changes the live system and the caller is not root.
    RootRequired,
}

impl PermissionError {
    /// The message shown to the user.
    pub fn message(&self) -> (r: &'static str)
        ensures
            r@ == "Ta operacja wymaga uprawnień roota. Użyj sudo."@,
    {
        "Ta operacja wymaga uprawnień roota. Użyj sudo."
    }
}

/// Whether a command is refused: it changes the live system (`root` is
/// `"/"`) and the effective user id is not 0.
pub open spec fn permission_denied(root: Seq<char>, c: Commands, euid: u32) -> bool {
    changes_system(c) && root == "/"@ && euid != 0
}

/// Checks that `command` may run against `root` for the user `euid`.
pub fn check_permissions(root: &str, command: &Commands, euid: u32) -> (r: Result<(), PermissionError>)
    ensures
        r is Err <==> permission_denied(root@, *command, euid),
        r matches Err(e) ==> e == PermissionError::RootRequired,
{
    let needs = needs_root(command);
    let rc = chars_of(root);
    let on_live = rc.len() == 1 && rc[0] == '/';
    proof {
        reveal_strlit("/");
        if on_live {
            assert(root@ =~= "/"@);
        }
    }
    if needs && on_live && euid != 0 {
        Err(PermissionError::RootRequired)
    } else {
        Ok(())
    }
}

} // verus!
