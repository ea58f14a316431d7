use vstd::prelude::*;
use vstd::seq_lib::to_multiset_insert;
use vstd::seq_lib::to_multiset_build;
use crate::text::chars_of;
use crate::text::string_views;
use crate::text::string_from;
use crate::text::str_eq;
use crate::text::has_prefix;
use crate::text::concat;
use crate::text::trim_end_matches;
use crate::text::trim_start_matches;
use crate::text::starts_with;
use crate::text::trim_end_char;
use crate::text::trim_start_char;
use crate::version::lex_order;
use crate::version::{version_order, version_order_of};
use crate::version::lex_order_of;
use crate::version::lemma_lex_order_flip;
use crate::version::lemma_lex_order_trans;
use crate::db::InstallReason;
use crate::package::RepoPackageEntry;
use crate::package::clone_strings;
use crate::deps::{parse_dependency, Dependency};
use crate::text::lemma_string_views_push;

verus! {

// ───────────────────────── arguments ─────────────────────────

/// A command that cannot start with the arguments it was given.
#[derive(Debug, Clone, Copy, PartialEq, Eq, Structural)]
pub enum CommandError {
    /// `install` without package names.
    NoPackagesToInstall,
    /// `remove` without package names.
    NoPackagesToRemove,
    /// `download` without package names.
    NoPackagesToDownload,
    /// `search` without a pattern.
    EmptySearchPattern,
    /// A `flatpak` command on a system without Flatpak.
    FlatpakMissing,
}

impl CommandError {
    /// The message shown to the user.
    pub fn message(&self) -> (r: &'static str)
        ensures
            r@ == match *self {
                CommandError::NoPackagesToInstall => "Nie podano pakietów do zainstalowania"@,
                CommandError::NoPackagesToRemove => "Nie podano pakietów do usunięcia"@,
                CommandError::NoPackagesToDownload => "Nie podano pakietów do pobrania"@,
                CommandError::EmptySearchPattern => "Podaj wzorzec wyszukiwania"@,
                CommandError::FlatpakMissing => "Flatpak nie jest zainstalowany. Zainstaluj: pag install flatpak"@,
            },
    {
        match self {
            CommandError::NoPackagesToInstall => "Nie podano pakietów do zainstalowania",
            CommandError::NoPackagesToRemove => "Nie podano pakietów do usunięcia",
            CommandError::NoPackagesToDownload => "Nie podano pakietów do pobrania",
            CommandError::EmptySearchPattern => "Podaj wzorzec wyszukiwania",
            CommandError::FlatpakMissing => "Flatpak nie jest zainstalowany. Zainstaluj: pag install flatpak",
        }
    }
}

/// Refuses an empty argument list with `err`.
pub fn require_args(args: &Vec<String>, err: CommandError) -> (r: Result<(), CommandError>)
    ensures
        r == (if args@.len() == 0 { Err(err) } else { Ok::<(), CommandError>(()) }),
{
    if args.len() == 0 {
        Err(err)
    } else {
        Ok(())
    }
}

// ───────────────────────── install ─────────────────────────

/// The reason recorded for packages that `install` adds.
pub fn install_reason_for(as_deps: bool) -> (r: InstallReason)
    ensures
        r == (if as_deps { InstallReason::Dependency } else { InstallReason::Explicit }),
{
    if as_deps {
        InstallReason::Dependency
    } else {
        InstallReason::Explicit
    }
}

/// What `install` does with one requested package.
#[derive(Debug, Clone, Copy, PartialEq, Eq, Structural)]
pub enum InstallStep {
    /// A dry run: only say what would be installed.
    Report,
    /// The package is installed already: warn and go on.
    AlreadyInstalled,
    /// Look the package up in the repositories and install it.
    Fetch,
}

/// The step for one package; `installed` is only looked at outside a dry run.
pub fn install_step(dry_run: bool, installed: bool) -> (r: InstallStep)
    ensures
        r == (if dry_run {
            InstallStep::Report
        } else if installed {
            InstallStep::AlreadyInstalled
        } else {
            InstallStep::Fetch
        }),
{
    if dry_run {
        InstallStep::Report
    } else if installed {
        InstallStep::AlreadyInstalled
    } else {
        InstallStep::Fetch
    }
}

/// The index of the first entry named `name`.
pub open spec fn first_entry_named(entries: Seq<RepoPackageEntry>, name: Seq<char>) -> Option<int> {
    if exists|i: int| 0 <= i < entries.len() && #[trigger] entries[i].name@ == name {
        Some(choose|i: int| 0 <= i < entries.len() && entries[i].name@ == name
            && forall|k: int| 0 <= k < i ==> #[trigger] entries[k].name@ != name)
    } else {
        None
    }
}

/// Finds the entry of an index that `install` takes for `name`: the first
/// with that name.
pub fn find_entry(entries: &Vec<RepoPackageEntry>, name: &str) -> (r: Option<usize>)
    ensures
        match r {
            Some(i) => i < entries@.len() && entries@[i as int].name@ == name@ && forall|k: int|
                0 <= k < i ==> #[trigger] entries@[k].name@ != name@,
            None => forall|k: int| 0 <= k < entries@.len() ==> #[trigger] entries@[k].name@ != name@,
        },
{
    let mut i: usize = 0;
    while i < entries.len()
        invariant
            i <= entries@.len(),
            forall|k: int| 0 <= k < i ==> #[trigger] entries@[k].name@ != name@,
        decreases entries@.len() - i,
    {
        if str_eq(entries[i].name.as_str(), name) {
            return Some(i);
        }
        i = i + 1;
    }
    None
}

/// Whether an archive member is written out: not when the file exists and
/// overwriting was not asked for.
pub fn should_unpack(exists: bool, overwrite: bool) -> (r: bool)
    ensures
        r == !(exists && !overwrite),
{
    !(exists && !overwrite)
}

// ───────────────────────── remove ─────────────────────────

/// Files under `/etc/` (not directories) hold configuration.
pub open spec fn config_file(path: Seq<char>) -> bool {
    starts_with(path, "/etc/"@) && !(path.len() > 0 && path.last() == '/')
}

/// Decides `config_file`.
pub fn is_config_file(path: &str) -> (r: bool)
    ensures
        r == config_file(path@),
{
    let p = chars_of(path);
    let etc = chars_of("/etc/");
    has_prefix(&p, &etc) && !(p.len() > 0 && p[p.len() - 1] == '/')
}

/// The directories that other packages share and removal keeps.
pub open spec fn shared_dir(path: Seq<char>) -> bool {
    ||| path == "/usr/"@
    ||| path == "/usr/bin/"@
    ||| path == "/usr/lib/"@
    ||| path == "/usr/share/"@
    ||| path == "/etc/"@
    ||| path == "/var/"@
    ||| path == "/opt/"@
    ||| path == "/bin/"@
    ||| path == "/lib/"@
    ||| path == "/sbin/"@
}

/// Decides `shared_dir`.
pub fn is_shared_dir(path: &str) -> (r: bool)
    ensures
        r == shared_dir(path@),
{
    str_eq(path, "/usr/") || str_eq(path, "/usr/bin/") || str_eq(path, "/usr/lib/") || str_eq(
        path,
        "/usr/share/",
    ) || str_eq(path, "/etc/") || str_eq(path, "/var/") || str_eq(path, "/opt/") || str_eq(
        path,
        "/bin/",
    ) || str_eq(path, "/lib/") || str_eq(path, "/sbin/")
}

/// Where a recorded file lies under `root`.
pub open spec fn under_root(root: Seq<char>, file: Seq<char>) -> Seq<char> {
    trim_end_char(root, '/') + seq!['/'] + trim_start_char(file, '/')
}

/// The path of a recorded file under `root`: the two joined by one `/`.
pub fn path_under_root(root: &str, file: &str) -> (r: String)
    ensures
        r@ == under_root(root@, file@),
{
    let r = trim_end_matches(&chars_of(root), '/');
    let slash = vec!['/'];
    let f = trim_start_matches(&chars_of(file), '/');
    let joined = concat(&concat(&r, &slash), &f);
    assert(slash@ =~= seq!['/']);
    string_from(&joined)
}

/// What removal does with one file of a package.
#[derive(Debug, Clone, Copy, PartialEq, Eq, Structural)]
pub enum FileRemoval {
    /// The file is gone already.
    Missing,
    /// A configuration file kept at the user's request.
    KeepConfig,
    /// A directory of the package's own: removed if empty.
    RemoveDir,
    /// A directory that other packages share: kept.
    KeepSharedDir,
    /// A file: removed.
    RemoveFile,
}

/// The removal step for the recorded `path`.
pub open spec fn removal_of(path: Seq<char>, exists: bool, is_dir: bool, nosave: bool) -> FileRemoval {
    if !exists {
        FileRemoval::Missing
    } else if nosave && config_file(path) {
        FileRemoval::KeepConfig
    } else if is_dir {
        if shared_dir(path) {
            FileRemoval::KeepSharedDir
        } else {
            FileRemoval::RemoveDir
        }
    } else {
        FileRemoval::RemoveFile
    }
}

/// The system directories that packages share.
pub open spec fn system_dirs() -> Seq<Seq<char>> {
    seq![
        "/usr/"@, "/usr/bin/"@, "/usr/lib/"@, "/usr/share/"@, "/etc/"@,
        "/var/"@, "/opt/"@, "/bin/"@, "/lib/"@, "/sbin/"@,
    ]
}

/// Removing a package never removes a shared system directory: an existing
/// directory at one of those paths is kept as shared, unless configuration
/// is kept instead; either way it is not scheduled for removal.
pub proof fn lemma_system_dirs_kept(i: int, nosave: bool)
    requires
        0 <= i < system_dirs().len(),
    ensures
        removal_of(system_dirs()[i], true, true, false) == FileRemoval::KeepSharedDir,
        removal_of(system_dirs()[i], true, true, nosave) != FileRemoval::RemoveDir,
        removal_of(system_dirs()[i], true, true, nosave) != FileRemoval::RemoveFile,
{
}

/// Decides `removal_of`.
pub fn file_removal(path: &str, exists: bool, is_dir: bool, nosave: bool) -> (r: FileRemoval)
    ensures
        r == removal_of(path@, exists, is_dir, nosave),
{
    if !exists {
        FileRemoval::Missing
    } else if nosave && is_config_file(path) {
        FileRemoval::KeepConfig
    } else if is_dir {
        if is_shared_dir(path) {
            FileRemoval::KeepSharedDir
        } else {
            FileRemoval::RemoveDir
        }
    } else {
        FileRemoval::RemoveFile
    }
}

/// Names in ascending order (as `Vec::<String>::sort` leaves them).
pub open spec fn names_sorted(s: Seq<String>) -> bool {
    forall|i: int, j: int| 0 <= i < j < s.len() ==> lex_order(#[trigger] s[i]@, #[trigger] s[j]@) <= 0
}

/// The names of `v`, sorted.
pub fn sorted_names(v: &Vec<String>) -> (r: Vec<String>)
    ensures
        names_sorted(r@),
        string_views(r@).to_multiset() == string_views(v@).to_multiset(),
{
    let mut out: Vec<String> = Vec::new();
    let mut i: usize = 0;
    assert(string_views(v@.take(0)) =~= string_views(out@));
    while i < v.len()
        invariant
            i <= v@.len(),
            names_sorted(out@),
            string_views(out@).to_multiset() == string_views(v@.take(i as int)).to_multiset(),
        decreases v@.len() - i,
    {
        let x = v[i].clone();
        let xc = chars_of(x.as_str());
        let mut p: usize = 0;
        while p < out.len() && lex_order_of(&xc, &chars_of(out[p].as_str())) >= 0
            invariant
                p <= out@.len(),
                xc@ == x@,
                forall|k: int| 0 <= k < p ==> lex_order(x@, #[trigger] out@[k]@) >= 0,
            decreases out@.len() - p,
        {
            p = p + 1;
        }
        let ghost old_out = out@;
        out.insert(p, x);
        proof {
            let n = out@;
            assert(n == old_out.insert(p as int, x));
            assert forall|a: int, b: int| 0 <= a < b < n.len() implies lex_order(
                #[trigger] n[a]@,
                #[trigger] n[b]@,
            ) <= 0 by {
                if b < p {
                    assert(n[a] == old_out[a] && n[b] == old_out[b]);
                } else if a < p && b == p {
                    lemma_lex_order_flip(x@, old_out[a]@);
                } else if a < p && b > p {
                    assert(n[a] == old_out[a] && n[b] == old_out[b - 1]);
                } else if a == p {
                    assert(p < old_out.len());
                    assert(lex_order(x@, old_out[p as int]@) < 0);
                    if b - 1 > p {
                        assert(lex_order(old_out[p as int]@, old_out[b - 1]@) <= 0);
                        lemma_lex_order_trans(x@, old_out[p as int]@, old_out[b - 1]@);
                    }
                } else {
                    assert(n[a] == old_out[a - 1] && n[b] == old_out[b - 1]);
                }
            }
            assert(string_views(n) =~= string_views(old_out).insert(p as int, x@));
            to_multiset_insert(string_views(old_out), p as int, x@);
            assert(string_views(v@.take(i + 1)) =~= string_views(v@.take(i as int)).push(v@[i as int]@));
            to_multiset_build(string_views(v@.take(i as int)), v@[i as int]@);
        }
        i = i + 1;
    }
    assert(v@.take(v@.len() as int) =~= v@);
    out
}

/// The packages that `remove` works through: the named ones, and with
/// `recursive` the orphans too, all sorted.
pub fn removal_targets(packages: &Vec<String>, orphans: &Vec<String>, recursive: bool) -> (r: Vec<
    String,
>)
    ensures
        !recursive ==> r@ == packages@,
        recursive ==> names_sorted(r@),
        recursive ==> string_views(r@).to_multiset() == string_views(packages@ + orphans@).to_multiset(),
{
    let mut all = clone_strings(packages);
    if !recursive {
        return all;
    }
    let mut i: usize = 0;
    while i < orphans.len()
        invariant
            i <= orphans@.len(),
            all@ == packages@ + orphans@.take(i as int),
        decreases orphans@.len() - i,
    {
        all.push(orphans[i].clone());
        assert(packages@ + orphans@.take(i as int).push(orphans@[i as int]) =~= packages@ + orphans@.take(i + 1));
        i = i + 1;
    }
    assert(orphans@.take(orphans@.len() as int) =~= orphans@);
    sorted_names(&all)
}

// ───────────────────────── check ─────────────────────────

/// The files of `files` whose `present` flag is false, in order.
pub open spec fn missing_of(files: Seq<String>, present: Seq<bool>) -> Seq<String>
    decreases files.len(),
{
    if files.len() == 0 || present.len() == 0 {
        seq![]
    } else {
        let rest = missing_of(files.drop_last(), present.drop_last());
        if present.last() {
            rest
        } else {
            rest.push(files.last())
        }
    }
}

/// The recorded files of a package that are not on disk; `present[i]` says
/// whether `files[i]` was found.
pub fn missing_files(files: &Vec<String>, present: &Vec<bool>) -> (r: Vec<String>)
    requires
        files@.len() == present@.len(),
    ensures
        r@ == missing_of(files@, present@),
{
    let mut r: Vec<String> = Vec::new();
    let mut i: usize = 0;
    while i < files.len()
        invariant
            files@.len() == present@.len(),
            i <= files@.len(),
            r@ == missing_of(files@.take(i as int), present@.take(i as int)),
        decreases files@.len() - i,
    {
        assert(files@.take(i + 1).drop_last() =~= files@.take(i as int));
        assert(present@.take(i + 1).drop_last() =~= present@.take(i as int));
        if !present[i] {
            r.push(files[i].clone());
        }
        i = i + 1;
    }
    assert(files@.take(files@.len() as int) =~= files@);
    assert(present@.take(present@.len() as int) =~= present@);
    r
}

/// The closing line of `check`.
#[derive(Debug, Clone, Copy, PartialEq, Eq, Structural)]
pub enum CheckVerdict {
    /// No package lacks files.
    AllSound,
    /// Problems were found and a repair was asked for.
    Repaired,
    /// Problems were found; `--fix` would repair them.
    NeedsRepair,
}

/// The verdict after `issues` damaged packages.
pub fn check_verdict(issues: u32, fix: bool) -> (r: CheckVerdict)
    ensures
        r == (if issues == 0 {
            CheckVerdict::AllSound
        } else if fix {
            CheckVerdict::Repaired
        } else {
            CheckVerdict::NeedsRepair
        }),
{
    if issues == 0 {
        CheckVerdict::AllSound
    } else if fix {
        CheckVerdict::Repaired
    } else {
        CheckVerdict::NeedsRepair
    }
}

// ───────────────────────── clean ─────────────────────────

/// The package a cached file belongs to: its stem up to the first `-`.
pub open spec fn cache_name_of(stem: Seq<char>) -> Seq<char> {
    match crate::text::index_of(stem, '-') {
        Some(i) => stem.take(i),
        None => stem,
    }
}

/// Decides `cache_name_of`.
pub fn cache_package_name(stem: &str) -> (r: String)
    ensures
        r@ == cache_name_of(stem@),
{
    let c = chars_of(stem);
    match crate::text::find_char(&c, '-') {
        Some(i) => string_from(&crate::text::slice_chars(&c, 0, i)),
        None => string_from(&c),
    }
}

/// Whether `clean --unused` removes a cached file: its package is not
/// installed.
pub fn is_unused_cache_file(stem: &str, installed: &Vec<String>) -> (r: bool)
    ensures
        r == !string_views(installed@).contains(cache_name_of(stem@)),
{
    let name = cache_package_name(stem);
    let mut i: usize = 0;
    while i < installed.len()
        invariant
            i <= installed@.len(),
            name@ == cache_name_of(stem@),
            forall|k: int| 0 <= k < i ==> #[trigger] installed@[k]@ != name@,
        decreases installed@.len() - i,
    {
        if installed[i].eq(&name) {
            assert(string_views(installed@)[i as int] == name@);
            return false;
        }
        i = i + 1;
    }
    proof {
        if string_views(installed@).contains(name@) {
            let k = choose|k: int| 0 <= k < string_views(installed@).len() && string_views(installed@)[k] == name@;
            assert(installed@[k]@ == name@);
        }
    }
    true
}

// ───────────────────────── list, info, stats ─────────────────────────

/// The install reason that `list` filters on.
pub fn list_reason(explicit: bool, deps: bool) -> (r: Option<InstallReason>)
    ensures
        r == (if explicit {
            Some(InstallReason::Explicit)
        } else if deps {
            Some(InstallReason::Dependency)
        } else {
            None
        }),
{
    if explicit {
        Some(InstallReason::Explicit)
    } else if deps {
        Some(InstallReason::Dependency)
    } else {
        None
    }
}

/// The heading of `list`.
pub fn list_label(explicit: bool, deps: bool) -> (r: &'static str)
    ensures
        r@ == (if explicit {
            "Jawnie zainstalowane"@
        } else if deps {
            "Zależności"@
        } else {
            "Wszystkie zainstalowane"@
        }),
{
    if explicit {
        "Jawnie zainstalowane"
    } else if deps {
        "Zależności"
    } else {
        "Wszystkie zainstalowane"
    }
}

/// The marker `list` puts after a dependency.
pub fn reason_marker(reason: InstallReason) -> (r: &'static str)
    ensures
        r@ == (if reason == InstallReason::Explicit { ""@ } else { " [dep]"@ }),
{
    match reason {
        InstallReason::Explicit => "",
        InstallReason::Dependency => " [dep]",
    }
}

/// How `info` words an install reason.
pub fn reason_label(reason: InstallReason) -> (r: &'static str)
    ensures
        r@ == (if reason == InstallReason::Explicit { "jawnie zainstalowany"@ } else { "zależność"@ }),
{
    match reason {
        InstallReason::Explicit => "jawnie zainstalowany",
        InstallReason::Dependency => "zależność",
    }
}

/// Whether a package belongs to the group `g`.
pub fn in_group(group_name: &Option<String>, g: &str) -> (r: bool)
    ensures
        r == (group_name matches Some(n) && n@ == g@),
{
    match group_name {
        Some(n) => str_eq(n.as_str(), g),
        None => false,
    }
}

/// The icon `stats` shows before an operation of the history.
pub open spec fn icon_of(op: Seq<char>) -> Seq<char> {
    if op == "install"@ {
        "📥"@
    } else if op == "remove"@ {
        "📤"@
    } else if op == "update"@ {
        "🔄"@
    } else {
        "ℹ️"@
    }
}

/// Decides `icon_of`.
pub fn operation_icon(op: &str) -> (r: &'static str)
    ensures
        r@ == icon_of(op@),
{
    if str_eq(op, "install") {
        "📥"
    } else if str_eq(op, "remove") {
        "📤"
    } else if str_eq(op, "update") {
        "🔄"
    } else {
        "ℹ️"
    }
}

// ───────────────────────── search ─────────────────────────

/// The words joined with single spaces.
pub open spec fn joined(words: Seq<String>) -> Seq<char>
    decreases words.len(),
{
    if words.len() == 0 {
        seq![]
    } else if words.len() == 1 {
        words[0]@
    } else {
        joined(words.drop_last()) + seq![' '] + words.last()@
    }
}

/// `words.join(" ")`.
pub fn join_words(words: &Vec<String>) -> (r: String)
    ensures
        r@ == joined(words@),
{
    let mut out: Vec<char> = Vec::new();
    let mut i: usize = 0;
    while i < words.len()
        invariant
            i <= words@.len(),
            out@ == joined(words@.take(i as int)),
        decreases words@.len() - i,
    {
        let w = chars_of(words[i].as_str());
        assert(words@.take(i + 1).drop_last() =~= words@.take(i as int));
        if i > 0 {
            out.push(' ');
        } else {
            assert(out@ =~= seq![]);
        }
        out = concat(&out, &w);
        proof {
            if i > 0 {
                assert(out@ =~= joined(words@.take(i as int)) + seq![' '] + words@[i as int]@);
            } else {
                assert(out@ =~= words@[0]@);
            }
        }
        i = i + 1;
    }
    assert(words@.take(words@.len() as int) =~= words@);
    string_from(&out)
}

/// Whether `search --installed` lists a package: the name holds the query,
/// or with `verbose` the description does.
pub open spec fn search_hit(name: Seq<char>, description: Seq<char>, query: Seq<char>, verbose: bool) -> bool {
    crate::text::find(name, query) is Some || (verbose && crate::text::find(description, query) is Some)
}

/// Decides `search_hit`.
pub fn search_matches(name: &str, description: &str, query: &str, verbose: bool) -> (r: bool)
    ensures
        r == search_hit(name@, description@, query@, verbose),
{
    crate::text::contains_str(name, query) || (verbose && crate::text::contains_str(description, query))
}

/// The names of `s[..n]` that do not occur earlier, in order.
pub open spec fn first_occurrences_upto(s: Seq<Seq<char>>, n: int) -> Seq<Seq<char>>
    decreases n,
{
    if n <= 0 {
        seq![]
    } else {
        let rest = first_occurrences_upto(s, n - 1);
        if s.take(n - 1).contains(s[n - 1]) {
            rest
        } else {
            rest.push(s[n - 1])
        }
    }
}

/// Each name once, at its first occurrence (what `search --quiet` prints).
pub fn first_occurrences(names: &Vec<String>) -> (r: Vec<String>)
    ensures
        string_views(r@) == first_occurrences_upto(string_views(names@), names@.len() as int),
        string_views(r@).no_duplicates(),
        forall|x: Seq<char>| string_views(r@).contains(x) <==> string_views(names@).contains(x),
{
    let ghost s = string_views(names@);
    let mut r: Vec<String> = Vec::new();
    let mut i: usize = 0;
    while i < names.len()
        invariant
            i <= names@.len(),
            s == string_views(names@),
            string_views(r@) == first_occurrences_upto(s, i as int),
            string_views(r@).no_duplicates(),
            forall|x: Seq<char>| string_views(r@).contains(x) <==> s.take(i as int).contains(x),
        decreases names@.len() - i,
    {
        let mut seen = false;
        let mut k: usize = 0;
        while k < r.len()
            invariant
                k <= r@.len(),
                i < names@.len(),
                !seen ==> forall|m: int| 0 <= m < k ==> #[trigger] r@[m]@ != names@[i as int]@,
                seen ==> string_views(r@).contains(names@[i as int]@),
            decreases r@.len() - k,
        {
            if r[k].eq(&names[i]) {
                seen = true;
                assert(string_views(r@)[k as int] == names@[i as int]@);
            }
            k = k + 1;
        }
        proof {
            assert(s[i as int] == names@[i as int]@);
            if !seen {
                assert(!string_views(r@).contains(names@[i as int]@)) by {
                    if string_views(r@).contains(names@[i as int]@) {
                        let m = choose|m: int| 0 <= m < string_views(r@).len() && string_views(r@)[m] == names@[i as int]@;
                        assert(r@[m]@ == names@[i as int]@);
                    }
                }
            }
            assert(s.take(i + 1) =~= s.take(i as int).push(s[i as int]));
            assert(s.take(i + 1).take(i as int) =~= s.take(i as int));
        }
        let ghost before = r@;
        if !seen {
            r.push(names[i].clone());
            proof {
                assert(string_views(r@) =~= string_views(before).push(names@[i as int]@));
            }
        }
        proof {
            assert forall|x: Seq<char>| string_views(r@).contains(x) <==> s.take(i + 1).contains(x) by {
                if s.take(i + 1).contains(x) {
                    let m = choose|m: int| 0 <= m < s.take(i + 1).len() && #[trigger] s.take(i + 1)[m] == x;
                    if m < i {
                        assert(s.take(i as int)[m] == x);
                        assert(string_views(before).contains(x));
                        let q = choose|q: int| 0 <= q < string_views(before).len() && #[trigger] string_views(before)[q] == x;
                        assert(string_views(r@)[q] == x);
                    } else if !seen {
                        assert(string_views(r@)[string_views(r@).len() - 1] == x);
                    }
                }
                if string_views(r@).contains(x) {
                    let q = choose|q: int| 0 <= q < string_views(r@).len() && #[trigger] string_views(r@)[q] == x;
                    if q < string_views(before).len() {
                        assert(string_views(before)[q] == x);
                        assert(string_views(before).contains(x));
                        assert(s.take(i as int).contains(x));
                        let m = choose|m: int| 0 <= m < s.take(i as int).len() && #[trigger] s.take(i as int)[m] == x;
                        assert(s.take(i + 1)[m] == x);
                    } else {
                        assert(s.take(i + 1)[i as int] == x);
                    }
                }
            }
        }
        i = i + 1;
    }
    assert(names@.take(names@.len() as int) =~= names@);
    assert(s.take(names@.len() as int) =~= s);
    r
}

/// A package is an orphan: it was installed as a dependency and no
/// dependency of an installed package names it (by the name the dependency
/// string parses to, so "glibc>=2.39" names "glibc").
pub open spec fn is_orphan(reason: InstallReason, name: Seq<char>, dependencies: Seq<Seq<char>>) -> bool {
    &&& reason == InstallReason::Dependency
    &&& forall|j: int| 0 <= j < dependencies.len() ==> #[trigger] parse_dependency(dependencies[j]).name != name
}

/// The orphans among the first `k` packages, in their order.
pub open spec fn orphans_upto(
    names: Seq<Seq<char>>,
    reasons: Seq<InstallReason>,
    dependencies: Seq<Seq<char>>,
    k: int,
) -> Seq<Seq<char>>
    decreases k,
{
    if k <= 0 {
        seq![]
    } else if is_orphan(reasons[k - 1], names[k - 1], dependencies) {
        orphans_upto(names, reasons, dependencies, k - 1).push(names[k - 1])
    } else {
        orphans_upto(names, reasons, dependencies, k - 1)
    }
}

/// Whether some dependency string parses to the name `name`.
pub fn named_by_any(dependencies: &Vec<String>, name: &str) -> (r: bool)
    ensures
        r == exists|j: int| 0 <= j < dependencies@.len() && #[trigger] parse_dependency(dependencies@[j]@).name == name@,
{
    let mut j: usize = 0;
    while j < dependencies.len()
        invariant
            j <= dependencies@.len(),
            forall|m: int| 0 <= m < j ==> #[trigger] parse_dependency(dependencies@[m]@).name != name@,
        decreases dependencies@.len() - j,
    {
        let d = Dependency::parse(dependencies[j].as_str());
        if str_eq(d.name.as_str(), name) {
            assert(parse_dependency(dependencies@[j as int]@).name == name@);
            return true;
        }
        j = j + 1;
    }
    false
}

/// The orphans among installed packages (`names[k]` installed for
/// `reasons[k]`), given every dependency string of the installed packages.
pub fn orphans_of(names: &Vec<String>, reasons: &Vec<InstallReason>, dependencies: &Vec<String>) -> (r: Vec<String>)
    requires
        names@.len() == reasons@.len(),
    ensures
        string_views(r@) == orphans_upto(string_views(names@), reasons@, string_views(dependencies@), names@.len() as int),
{
    let ghost ns = string_views(names@);
    let ghost ds = string_views(dependencies@);
    let mut r: Vec<String> = Vec::new();
    let mut k: usize = 0;
    assert(string_views(r@) =~= Seq::<Seq<char>>::empty());
    while k < names.len()
        invariant
            k <= names@.len(),
            names@.len() == reasons@.len(),
            ns == string_views(names@),
            ds == string_views(dependencies@),
            string_views(r@) == orphans_upto(ns, reasons@, ds, k as int),
        decreases names@.len() - k,
    {
        let named = named_by_any(dependencies, names[k].as_str());
        proof {
            assert(ns[k as int] == names@[k as int]@);
            assert forall|j: int| 0 <= j < ds.len() implies #[trigger] ds[j] == dependencies@[j]@ by {}
            if named {
                let j = choose|j: int| 0 <= j < dependencies@.len() && #[trigger] parse_dependency(dependencies@[j]@).name == names@[k as int]@;
                assert(parse_dependency(ds[j]).name == ns[k as int]);
            }
        }
        let orphan = match reasons[k] {
            InstallReason::Dependency => !named,
            InstallReason::Explicit => false,
        };
        if orphan {
            let ghost before = r@;
            let n = string_from(&chars_of(names[k].as_str()));
            r.push(n);
            proof {
                lemma_string_views_push(before, n);
            }
        }
        k = k + 1;
    }
    r
}

/// The version text an offer holds, if any.
pub open spec fn offer_view(o: Option<String>) -> Option<Seq<char>> {
    match o {
        Some(v) => Some(v@),
        None => None,
    }
}

/// An installed package at `installed_version` has an upgrade when the
/// repositories offer a newer version.
pub open spec fn has_upgrade(installed_version: Seq<char>, offered: Option<Seq<char>>) -> bool {
    offered matches Some(v) && version_order(v, installed_version) == 1
}

/// The positions, in order, of installed packages (`versions[k]`) that the
/// repositories offer in a newer version (`offered[k]`).
pub fn upgrade_candidates(versions: &Vec<String>, offered: &Vec<Option<String>>) -> (r: Vec<usize>)
    requires
        versions@.len() == offered@.len(),
    ensures
        forall|i: int| 0 <= i < r@.len() ==> #[trigger] r@[i] < versions@.len() && has_upgrade(
            versions@[r@[i] as int]@,
            match offered@[r@[i] as int] { Some(v) => Some(v@), None => None },
        ),
        forall|i: int, j: int| 0 <= i < j < r@.len() ==> #[trigger] r@[i] < #[trigger] r@[j],
        forall|k: int| 0 <= k < versions@.len() && #[trigger] has_upgrade(
            versions@[k]@,
            offer_view(offered@[k]),
        ) ==> r@.contains(k as usize),
{
    let mut r: Vec<usize> = Vec::new();
    let mut k: usize = 0;
    while k < versions.len()
        invariant
            k <= versions@.len(),
            versions@.len() == offered@.len(),
            forall|i: int| 0 <= i < r@.len() ==> #[trigger] r@[i] < k && has_upgrade(
                versions@[r@[i] as int]@,
                match offered@[r@[i] as int] { Some(v) => Some(v@), None => None },
            ),
            forall|i: int, j: int| 0 <= i < j < r@.len() ==> #[trigger] r@[i] < #[trigger] r@[j],
            forall|m: int| 0 <= m < k && #[trigger] has_upgrade(
                versions@[m]@,
                offer_view(offered@[m]),
            ) ==> r@.contains(m as usize),
        decreases versions@.len() - k,
    {
        let newer = match &offered[k] {
            Some(v) => version_order_of(v.as_str(), versions[k].as_str()) == 1,
            None => false,
        };
        if newer {
            let ghost r0 = r@;
            r.push(k);
            proof {
                assert forall|m: int| 0 <= m < k + 1 && #[trigger] has_upgrade(
                    versions@[m]@,
                    offer_view(offered@[m]),
                ) implies r@.contains(m as usize) by {
                    if m == k {
                        assert(r@[r0.len() as int] == k);
                    } else {
                        let w = choose|w: int| 0 <= w < r0.len() && r0[w] == m as usize;
                        assert(r@[w] == r0[w]);
                    }
                }
            }
        }
        k = k + 1;
    }
    r
}

} // verus!
