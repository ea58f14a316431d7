use vstd::prelude::*;
use crate::text::{chars_of, lines, lines_of, split_char, split_on, string_from, owned, concat, string_views, lemma_string_views_push};
use crate::commands::{join_words, joined};

verus! {

/// One Flatpak application as `flatpak search` or `flatpak list` prints it.
#[derive(Debug, Clone)]
pub struct FlatpakInfo {
    pub name: String,
    pub app_id: String,
    pub version: String,
    pub branch: String,
    pub description: String,
}

pub type InfoRow = (Seq<char>, Seq<char>, Seq<char>, Seq<char>, Seq<char>);

pub open spec fn info_view(i: FlatpakInfo) -> InfoRow {
    (i.name@, i.app_id@, i.version@, i.branch@, i.description@)
}

/// The row of tab-separated columns `p`: name, application id, version,
/// branch, and the fifth column (or nothing) as description.
pub open spec fn row_of(p: Seq<Seq<char>>) -> InfoRow {
    (p[0], p[1], p[2], p[3], if p.len() > 4 { p[4] } else { seq![] })
}

/// The rows among the lines `ls[1..n]` (the first line is the header) that
/// have at least four columns.
pub open spec fn rows_upto(ls: Seq<Seq<char>>, n: int) -> Seq<InfoRow>
    decreases n,
{
    if n <= 1 {
        seq![]
    } else {
        let prev = rows_upto(ls, n - 1);
        let p = split_char(ls[n - 1], '\t');
        if p.len() >= 4 {
            prev.push(row_of(p))
        } else {
            prev
        }
    }
}

/// What `parse_flatpak_output` reads from the output of a `flatpak` listing.
pub open spec fn flatpak_rows(stdout: Seq<char>) -> Seq<InfoRow> {
    rows_upto(lines(stdout), lines(stdout).len() as int)
}

/// Reads the applications from the tab-separated output of `flatpak search`
/// or `flatpak list`: the header line is skipped, and so is every line with
/// fewer than four columns.
pub fn parse_flatpak_output(stdout: &str) -> (r: Vec<FlatpakInfo>)
    ensures
        r@.map_values(|i: FlatpakInfo| info_view(i)) == flatpak_rows(stdout@),
{
    let ls = lines_of(&chars_of(stdout));
    let ghost l = lines(stdout@);
    let mut r: Vec<FlatpakInfo> = Vec::new();
    let mut n: usize = 1;
    if ls.len() == 0 {
        assert(r@.map_values(|i: FlatpakInfo| info_view(i)) =~= flatpak_rows(stdout@));
        return r;
    }
    assert(r@.map_values(|i: FlatpakInfo| info_view(i)) =~= rows_upto(l, 1));
    while n < ls.len()
        invariant
            1 <= n <= ls@.len(),
            l == lines(stdout@),
            ls@.len() == l.len(),
            forall|i: int| 0 <= i < ls@.len() ==> #[trigger] ls@[i]@ == l[i],
            r@.map_values(|i: FlatpakInfo| info_view(i)) == rows_upto(l, n as int),
        decreases ls@.len() - n,
    {
        let parts = split_on(&ls[n], '\t');
        assert(ls@[n as int]@ == l[n as int]);
        let ghost p = split_char(l[n as int], '\t');
        if parts.len() >= 4 {
            let description = if parts.len() > 4 { string_from(&parts[4]) } else { String::new() };
            let info = FlatpakInfo {
                name: string_from(&parts[0]),
                app_id: string_from(&parts[1]),
                version: string_from(&parts[2]),
                branch: string_from(&parts[3]),
                description,
            };
            proof {
                assert(parts@[0]@ == p[0]);
                assert(parts@[1]@ == p[1]);
                assert(parts@[2]@ == p[2]);
                assert(parts@[3]@ == p[3]);
                if parts@.len() > 4 {
                    assert(parts@[4]@ == p[4]);
                }
                assert(info_view(info) == row_of(p));
            }
            let ghost before = r@.map_values(|i: FlatpakInfo| info_view(i));
            r.push(info);
            assert(r@.map_values(|i: FlatpakInfo| info_view(i)) =~= before.push(row_of(p)));
        }
        n = n + 1;
    }
    r
}

/// Whether one of the applications has the given id.
pub fn is_available_as_flatpak(results: &[FlatpakInfo], app_id: &str) -> (r: bool)
    ensures
        r == exists|i: int| 0 <= i < results@.len() && (#[trigger] results@[i]).app_id@ == app_id@,
{
    let id = chars_of(app_id);
    let mut i: usize = 0;
    while i < results.len()
        invariant
            i <= results@.len(),
            id@ == app_id@,
            forall|k: int| 0 <= k < i ==> (#[trigger] results@[k]).app_id@ != app_id@,
        decreases results@.len() - i,
    {
        if crate::text::chars_eq(&chars_of(results[i].app_id.as_str()), &id) {
            return true;
        }
        i = i + 1;
    }
    false
}

// ───────────────────────── command lines ─────────────────────────

fn push_arg(v: &mut Vec<String>, a: &str)
    ensures
        string_views(final(v)@) == string_views(old(v)@).push(a@),
{
    let ghost before = v@;
    let s = owned(a);
    v.push(s);
    proof {
        lemma_string_views_push(before, s);
    }
}

/// The arguments of `flatpak` that install one application, from `remote`
/// when one is named.
pub fn install_args(pkg: &str, remote: Option<&str>) -> (r: Vec<String>)
    ensures
        string_views(r@) == (match remote {
            Some(rm) => seq!["install"@, "--noninteractive"@, rm@, pkg@],
            None => seq!["install"@, "--noninteractive"@, pkg@],
        }),
{
    let mut v: Vec<String> = Vec::new();
    assert(string_views(v@) =~= Seq::<Seq<char>>::empty());
    push_arg(&mut v, "install");
    push_arg(&mut v, "--noninteractive");
    match remote {
        Some(rm) => push_arg(&mut v, rm),
        None => {},
    }
    push_arg(&mut v, pkg);
    proof {
        match remote {
            Some(rm) => assert(string_views(v@) =~= seq!["install"@, "--noninteractive"@, rm@, pkg@]),
            None => assert(string_views(v@) =~= seq!["install"@, "--noninteractive"@, pkg@]),
        }
    }
    v
}

/// The arguments of `flatpak` that remove one application.
pub fn uninstall_args(pkg: &str) -> (r: Vec<String>)
    ensures
        string_views(r@) == seq!["uninstall"@, "--noninteractive"@, pkg@],
{
    let mut v: Vec<String> = Vec::new();
    assert(string_views(v@) =~= Seq::<Seq<char>>::empty());
    push_arg(&mut v, "uninstall");
    push_arg(&mut v, "--noninteractive");
    push_arg(&mut v, pkg);
    assert(string_views(v@) =~= seq!["uninstall"@, "--noninteractive"@, pkg@]);
    v
}

/// The arguments of `flatpak` that search for the words of `query`.
pub fn search_args(query: &Vec<String>) -> (r: Vec<String>)
    ensures
        string_views(r@) == seq!["search"@, "--columns=name,application,version,branch,description"@, joined(query@)],
{
    let mut v: Vec<String> = Vec::new();
    assert(string_views(v@) =~= Seq::<Seq<char>>::empty());
    push_arg(&mut v, "search");
    push_arg(&mut v, "--columns=name,application,version,branch,description");
    let q = join_words(query);
    push_arg(&mut v, q.as_str());
    assert(string_views(v@) =~= seq!["search"@, "--columns=name,application,version,branch,description"@, joined(query@)]);
    v
}

/// The arguments of `flatpak` that list the installed applications.
pub fn list_args() -> (r: Vec<String>)
    ensures
        string_views(r@) == seq!["list"@, "--columns=name,application,version,branch,origin"@],
{
    let mut v: Vec<String> = Vec::new();
    assert(string_views(v@) =~= Seq::<Seq<char>>::empty());
    push_arg(&mut v, "list");
    push_arg(&mut v, "--columns=name,application,version,branch,origin");
    assert(string_views(v@) =~= seq!["list"@, "--columns=name,application,version,branch,origin"@]);
    v
}

/// The arguments of `flatpak` that update everything.
pub fn update_args() -> (r: Vec<String>)
    ensures
        string_views(r@) == seq!["update"@, "--noninteractive"@],
{
    let mut v: Vec<String> = Vec::new();
    assert(string_views(v@) =~= Seq::<Seq<char>>::empty());
    push_arg(&mut v, "update");
    push_arg(&mut v, "--noninteractive");
    assert(string_views(v@) =~= seq!["update"@, "--noninteractive"@]);
    v
}

/// The arguments of `flatpak` that add a remote unless it exists.
pub fn remote_add_args(name: &str, url: &str) -> (r: Vec<String>)
    ensures
        string_views(r@) == seq!["remote-add"@, "--if-not-exists"@, name@, url@],
{
    let mut v: Vec<String> = Vec::new();
    assert(string_views(v@) =~= Seq::<Seq<char>>::empty());
    push_arg(&mut v, "remote-add");
    push_arg(&mut v, "--if-not-exists");
    push_arg(&mut v, name);
    push_arg(&mut v, url);
    assert(string_views(v@) =~= seq!["remote-add"@, "--if-not-exists"@, name@, url@]);
    v
}

/// A `flatpak` run that failed.
#[derive(Debug, Clone, PartialEq, Eq)]
pub enum FlatpakError {
    /// Installing the named application failed.
    InstallFailed(String),
    /// Removing the named application failed.
    RemoveFailed(String),
    /// The search failed.
    SearchFailed,
    /// The update failed.
    UpdateFailed,
    /// Listing the installed applications failed.
    ListFailed,
    /// Adding the named remote failed.
    RemoteAddFailed(String),
}

impl FlatpakError {
    /// The message shown to the user.
    pub fn message(&self) -> (r: String)
        ensures
            r@ == match self {
                FlatpakError::InstallFailed(p) => "Flatpak: nie udało się zainstalować "@ + p@,
                FlatpakError::RemoveFailed(p) => "Flatpak: nie udało się usunąć "@ + p@,
                FlatpakError::SearchFailed => "Flatpak: wyszukiwanie nie powiodło się"@,
                FlatpakError::UpdateFailed => "Flatpak: aktualizacja nie powiodła się"@,
                FlatpakError::ListFailed => "Flatpak: nie udało się pobrać listy"@,
                FlatpakError::RemoteAddFailed(n) => "Flatpak: nie udało się dodać remote "@ + n@,
            },
    {
        match self {
            FlatpakError::InstallFailed(p) => string_from(&concat(&chars_of("Flatpak: nie udało się zainstalować "), &chars_of(p.as_str()))),
            FlatpakError::RemoveFailed(p) => string_from(&concat(&chars_of("Flatpak: nie udało się usunąć "), &chars_of(p.as_str()))),
            FlatpakError::SearchFailed => owned("Flatpak: wyszukiwanie nie powiodło się"),
            FlatpakError::UpdateFailed => owned("Flatpak: aktualizacja nie powiodła się"),
            FlatpakError::ListFailed => owned("Flatpak: nie udało się pobrać listy"),
            FlatpakError::RemoteAddFailed(n) => string_from(&concat(&chars_of("Flatpak: nie udało się dodać remote "), &chars_of(n.as_str()))),
        }
    }
}

} // verus!
