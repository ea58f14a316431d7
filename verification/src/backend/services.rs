use vstd::prelude::*;
use crate::text::chars_of;
use crate::text::string_from;
use crate::text::owned;
use crate::text::concat;
use crate::text::trim;
use crate::text::trim_matches;
use crate::text::has_prefix;
use crate::text::slice_chars;
use crate::text::lines_of;
use crate::text::find_chars;
use crate::text::str_eq;
use crate::text::lines;
use crate::text::trim_ws;
use crate::text::trim_char;
use crate::text::starts_with;
use crate::text::find;
use crate::text::lemma_find_occurs;
use crate::backend::models::CreatePackageRequest;
use crate::backend::models::Package;
use crate::backend::models::PackageFilter;
use crate::text::contains_str;
use crate::backend::models::WebhookPayload;
use crate::backend::models::CreateRepoRequest;
use crate::backend::models::CreatePortRequest;

verus! {

/// Signing up, logging in and tokens.
pub struct AuthService;

/// Build jobs.
pub struct BuildService;

/// Packages and their build descriptions.
pub struct PackageService;

/// Ports.
pub struct PortService;

/// Source repositories on the forge.
pub struct RepoService;

// ───────────────────────── PAGBUILD files ─────────────────────────

/// What a PAGBUILD file declares.
#[derive(Debug, Clone)]
pub struct PagbuildInfo {
    pub name: String,
    pub version: String,
    pub release: Option<String>,
    pub description: Option<String>,
    pub arch: Option<String>,
}

/// The declarations read so far, as text.
pub struct PagbuildView {
    pub name: Seq<char>,
    pub version: Seq<char>,
    pub release: Option<Seq<char>>,
    pub description: Option<Seq<char>>,
    pub arch: Option<Seq<char>>,
}

pub open spec fn opt_view(o: Option<String>) -> Option<Seq<char>> {
    match o {
        Some(s) => Some(s@),
        None => None,
    }
}

impl PagbuildInfo {
    pub open spec fn view(&self) -> PagbuildView {
        PagbuildView {
            name: self.name@,
            version: self.version@,
            release: opt_view(self.release),
            description: opt_view(self.description),
            arch: opt_view(self.arch),
        }
    }
}

/// The value of `VAR=value` on a trimmed line: trimmed, without
/// surrounding `"` and then `'`, and not empty.
pub open spec fn var_value(line: Seq<char>, var: Seq<char>) -> Option<Seq<char>> {
    let prefix = var + seq!['='];
    if starts_with(line, prefix) {
        let v = trim_char(trim_char(trim_ws(line.skip(prefix.len() as int)), '"'), '\'');
        if v.len() > 0 {
            Some(v)
        } else {
            None
        }
    } else {
        None
    }
}

/// The declarations after one more line of a PAGBUILD file.
pub open spec fn pagbuild_step(info: PagbuildView, line: Seq<char>) -> PagbuildView {
    let l = trim_ws(line);
    if l.len() == 0 || l[0] == '#' {
        info
    } else if let Some(v) = var_value(l, "pkgname"@) {
        PagbuildView { name: v, ..info }
    } else if let Some(v) = var_value(l, "pkgver"@) {
        PagbuildView { version: v, ..info }
    } else if let Some(v) = var_value(l, "pkgrel"@) {
        PagbuildView { release: Some(v), ..info }
    } else if let Some(v) = var_value(l, "pkgdesc"@) {
        PagbuildView { description: Some(v), ..info }
    } else if let Some(v) = var_value(l, "arch"@) {
        PagbuildView { arch: Some(v), ..info }
    } else {
        info
    }
}

/// The declarations of the lines `ls`, read in order.
pub open spec fn pagbuild_scan(ls: Seq<Seq<char>>) -> PagbuildView
    decreases ls.len(),
{
    if ls.len() == 0 {
        PagbuildView { name: seq![], version: seq![], release: None, description: None, arch: None }
    } else {
        pagbuild_step(pagbuild_scan(ls.drop_last()), ls.last())
    }
}

/// A PAGBUILD file that cannot be used.
#[derive(Debug, Clone, Copy, PartialEq, Eq, Structural)]
pub enum PagbuildError {
    /// It names no package or no version.
    MissingNameOrVersion,
}

impl PagbuildError {
    /// The message shown to the user.
    pub fn message(&self) -> (r: &'static str)
        ensures
            r@ == "PAGBUILD musi zawierać przynajmniej pkgname i pkgver"@,
    {
        "PAGBUILD musi zawierać przynajmniej pkgname i pkgver"
    }
}

impl PackageService {
    /// The value a trimmed PAGBUILD line gives `var`, if it sets it.
    pub fn extract_var(line: &str, var: &str) -> (r: Option<String>)
        ensures
            match r {
                Some(v) => var_value(line@, var@) == Some(v@),
                None => var_value(line@, var@) is None,
            },
    {
        let l = chars_of(line);
        let eq = vec!['='];
        assert(eq@ =~= seq!['=']);
        let prefix = concat(&chars_of(var), &eq);
        if !has_prefix(&l, &prefix) {
            return None;
        }
        let rest = slice_chars(&l, prefix.len(), l.len());
        assert(rest@ =~= line@.skip(prefix@.len() as int));
        let v = trim_matches(&trim_matches(&trim(&rest), '"'), '\'');
        if v.len() > 0 {
            Some(string_from(&v))
        } else {
            None
        }
    }

    /// Reads a PAGBUILD file: `pkgname`, `pkgver`, `pkgrel`, `pkgdesc` and
    /// `arch` (the last line that sets each wins; empty and `#` lines are
    /// skipped). Name and version must be set.
    pub fn parse_pagbuild(content: &str) -> (r: Result<PagbuildInfo, PagbuildError>)
        ensures
            ({
                let v = pagbuild_scan(lines(content@));
                match r {
                    Ok(info) => v.name.len() > 0 && v.version.len() > 0 && info@ == v,
                    Err(e) => (v.name.len() == 0 || v.version.len() == 0) && e
                        == PagbuildError::MissingNameOrVersion,
                }
            }),
    {
        let ls = lines_of(&chars_of(content));
        let ghost lsv = lines(content@);
        let mut info = PagbuildInfo {
            name: String::new(),
            version: String::new(),
            release: None,
            description: None,
            arch: None,
        };
        let mut i: usize = 0;
        assert(lsv.take(0) =~= Seq::<Seq<char>>::empty());
        while i < ls.len()
            invariant
                i <= ls@.len(),
                lsv == lines(content@),
                ls@.len() == lsv.len(),
                forall|j: int| 0 <= j < ls@.len() ==> #[trigger] ls@[j]@ == lsv[j],
                info@ == pagbuild_scan(lsv.take(i as int)),
            decreases ls@.len() - i,
        {
            assert(lsv.take(i + 1).drop_last() =~= lsv.take(i as int));
            let l = trim(&ls[i]);
            assert(l@ == trim_ws(lsv[i as int]));
            if l.len() == 0 || l[0] == '#' {
            } else {
                let line = string_from(&l);
                if let Some(v) = Self::extract_var(line.as_str(), "pkgname") {
                    info.name = v;
                } else if let Some(v) = Self::extract_var(line.as_str(), "pkgver") {
                    info.version = v;
                } else if let Some(v) = Self::extract_var(line.as_str(), "pkgrel") {
                    info.release = Some(v);
                } else if let Some(v) = Self::extract_var(line.as_str(), "pkgdesc") {
                    info.description = Some(v);
                } else if let Some(v) = Self::extract_var(line.as_str(), "arch") {
                    info.arch = Some(v);
                }
            }
            i = i + 1;
        }
        assert(lsv.take(ls@.len() as int) =~= lsv);
        if chars_of(info.name.as_str()).len() == 0 || chars_of(info.version.as_str()).len() == 0 {
            Err(PagbuildError::MissingNameOrVersion)
        } else {
            Ok(info)
        }
    }

    /// The stored release, description and architecture of a new package:
    /// `"1"`, `""` and `"x86_64"` where the request gives none.
    pub fn creation_defaults(req: &CreatePackageRequest) -> (r: (String, String, String))
        ensures
            r.0@ == (match req.release {
                Some(s) => s@,
                None => "1"@,
            }),
            r.1@ == (match req.description {
                Some(s) => s@,
                None => ""@,
            }),
            r.2@ == (match req.arch {
                Some(s) => s@,
                None => "x86_64"@,
            }),
    {
        let release = match &req.release {
            Some(s) => owned(s.as_str()),
            None => owned("1"),
        };
        let description = match &req.description {
            Some(s) => owned(s.as_str()),
            None => owned(""),
        };
        let arch = match &req.arch {
            Some(s) => owned(s.as_str()),
            None => owned("x86_64"),
        };
        (release, description, arch)
    }
}

/// The page, page size and offset of a listing: page 1 and 20 entries
/// unless asked otherwise, the page at least 1, the size at most 100.
pub open spec fn page_numbers(page: Option<i64>, limit: Option<i64>) -> (int, int) {
    let p = match page {
        Some(p) => if p < 1 { 1 } else { p as int },
        None => 1,
    };
    let l = match limit {
        Some(l) => if l > 100 { 100 } else { l as int },
        None => 20,
    };
    (p, l)
}

/// A package passes a listing filter: its architecture and build status
/// equal the ones asked for, and its name holds the search text, each
/// where the filter gives one.
pub open spec fn package_matches(pkg: Package, filter: PackageFilter) -> bool {
    &&& (filter.arch matches Some(a) ==> pkg.arch@ == a@)
    &&& (filter.status matches Some(st) ==> pkg.build_status@ == st@)
    &&& (filter.search matches Some(q) ==> find(pkg.name@, q@) is Some)
}

impl PackageService {
    /// Whether a package passes a listing filter.
    pub fn matches_filter(pkg: &Package, filter: &PackageFilter) -> (r: bool)
        ensures
            r == package_matches(*pkg, *filter),
    {
        let arch_ok = match &filter.arch {
            Some(a) => str_eq(pkg.arch.as_str(), a.as_str()),
            None => true,
        };
        let status_ok = match &filter.status {
            Some(st) => str_eq(pkg.build_status.as_str(), st.as_str()),
            None => true,
        };
        let search_ok = match &filter.search {
            Some(q) => contains_str(pkg.name.as_str(), q.as_str()),
            None => true,
        };
        arch_ok && status_ok && search_ok
    }

    /// The positions, in order, of the packages that pass a listing filter.
    pub fn filter_indices(packages: &Vec<Package>, filter: &PackageFilter) -> (r: Vec<usize>)
        ensures
            forall|i: int| 0 <= i < r@.len() ==> #[trigger] r@[i] < packages@.len()
                && package_matches(packages@[r@[i] as int], *filter),
            forall|i: int, j: int| 0 <= i < j < r@.len() ==> #[trigger] r@[i] < #[trigger] r@[j],
            forall|k: int| 0 <= k < packages@.len() && #[trigger] package_matches(packages@[k], *filter)
                ==> r@.contains(k as usize),
    {
        let mut r: Vec<usize> = Vec::new();
        let mut k: usize = 0;
        while k < packages.len()
            invariant
                k <= packages@.len(),
                forall|i: int| 0 <= i < r@.len() ==> #[trigger] r@[i] < k
                    && package_matches(packages@[r@[i] as int], *filter),
                forall|i: int, j: int| 0 <= i < j < r@.len() ==> #[trigger] r@[i] < #[trigger] r@[j],
                forall|m: int| 0 <= m < k && #[trigger] package_matches(packages@[m], *filter)
                    ==> r@.contains(m as usize),
            decreases packages@.len() - k,
        {
            if Self::matches_filter(&packages[k], filter) {
                let ghost r0 = r@;
                r.push(k);
                proof {
                    assert forall|m: int| 0 <= m < k + 1 && #[trigger] package_matches(packages@[m], *filter)
                        implies r@.contains(m as usize) by {
                        if m == k {
                            assert(r@[r0.len() as int] == k);
                        } else {
                            let w = choose|w: int| 0 <= w < r0.len() && r0[w] == m as usize;
                            assert(r@[w] == r0[w]);
                        }
                    }
                }
            }
            k = k + 1;
        }
        r
    }

    /// The page, page size and offset `(page - 1) * size` of a listing.
    pub fn page_window(page: Option<i64>, limit: Option<i64>) -> (r: (i64, i64, i64))
        requires
            i64::MIN <= (page_numbers(page, limit).0 - 1) * page_numbers(page, limit).1 <= i64::MAX,
        ensures
            r.0 == page_numbers(page, limit).0,
            r.1 == page_numbers(page, limit).1,
            r.2 == (r.0 - 1) * r.1,
    {
        let p: i64 = match page {
            Some(p) => if p < 1 { 1 } else { p },
            None => 1,
        };
        let l: i64 = match limit {
            Some(l) => if l > 100 { 100 } else { l },
            None => 20,
        };
        let offset: i64 = (p - 1) * l;
        (p, l, offset)
    }

    /// The slice `start..end` of `len` entries that a page shows: `offset`
    /// entries skipped and `limit` taken, each read as a `usize` (as
    /// `Iterator::skip` and `take` get them).
    pub fn page_range(len: usize, offset: i64, limit: i64) -> (r: (usize, usize))
        ensures
            r.0 == (if (offset as usize) < len { offset as usize } else { len }),
            r.1 == (if (limit as usize) < len - r.0 { r.0 + (limit as usize) } else { len as int }),
    {
        #[verifier::truncate]
        let skip: usize = offset as usize;
        #[verifier::truncate]
        let take: usize = limit as usize;
        let start = if skip < len {
            skip
        } else {
            len
        };
        let end = if take < len - start {
            start + take
        } else {
            len
        };
        (start, end)
    }
}

// ───────────────────────── builds ─────────────────────────

impl BuildService {
    /// The job id of a new build: `build-` and a fresh UUID.
    pub fn job_id(uuid: &str) -> (r: String)
        ensures
            r@ == "build-"@ + uuid@,
    {
        string_from(&concat(&chars_of("build-"), &chars_of(uuid)))
    }

    /// The architecture a build is queued for: `x86_64` unless given.
    pub fn arch_or_default(arch: &Option<String>) -> (r: String)
        ensures
            r@ == (match arch {
                Some(a) => a@,
                None => "x86_64"@,
            }),
    {
        match arch {
            Some(a) => owned(a.as_str()),
            None => owned("x86_64"),
        }
    }

    /// Whether a status change stamps the start (`running`) and the end
    /// (`success` or `failed`) of a build.
    pub fn stamps_for(status: &str) -> (r: (bool, bool))
        ensures
            r.0 == (status@ == "running"@),
            r.1 == (status@ == "success"@ || status@ == "failed"@),
    {
        (str_eq(status, "running"), str_eq(status, "success") || str_eq(status, "failed"))
    }

    /// The package state that follows a build's state.
    pub fn package_status_after(status: &str) -> (r: &'static str)
        ensures
            r@ == (if status@ == "success"@ {
                "success"@
            } else if status@ == "failed"@ {
                "failed"@
            } else {
                "building"@
            }),
    {
        if str_eq(status, "success") {
            "success"
        } else if str_eq(status, "failed") {
            "failed"
        } else {
            "building"
        }
    }
}

// ───────────────────────── ports ─────────────────────────

impl PortService {
    /// The stored category, description and version of a new port: empty
    /// where the request gives none.
    pub fn creation_defaults(req: &CreatePortRequest) -> (r: (String, String, String))
        ensures
            r.0@ == (match req.category {
                Some(s) => s@,
                None => ""@,
            }),
            r.1@ == (match req.description {
                Some(s) => s@,
                None => ""@,
            }),
            r.2@ == (match req.version {
                Some(s) => s@,
                None => ""@,
            }),
    {
        let category = match &req.category {
            Some(s) => owned(s.as_str()),
            None => owned(""),
        };
        let description = match &req.description {
            Some(s) => owned(s.as_str()),
            None => owned(""),
        };
        let version = match &req.version {
            Some(s) => owned(s.as_str()),
            None => owned(""),
        };
        (category, description, version)
    }
}

// ───────────────────────── repositories ─────────────────────────

/// `s` with every occurrence of the non-empty `p` removed, left to right
/// (`str::replace(p, "")`).
pub open spec fn remove_all(s: Seq<char>, p: Seq<char>) -> Seq<char>
    decreases s.len(),
{
    if p.len() == 0 {
        s
    } else {
        match find(s, p) {
            None => s,
            Some(i) => if 0 <= i && i + p.len() <= s.len() {
                s.take(i) + remove_all(s.skip(i + p.len()), p)
            } else {
                s
            },
        }
    }
}

fn remove_all_of(s: &[char], p: &[char]) -> (r: Vec<char>)
    requires
        p@.len() > 0,
    ensures
        r@ == remove_all(s@, p@),
{
    let mut out: Vec<char> = Vec::new();
    let mut rest = slice_chars(s, 0, s.len());
    assert(rest@ =~= s@);
    loop
        invariant
            p@.len() > 0,
            remove_all(s@, p@) == out@ + remove_all(rest@, p@),
        decreases rest@.len(),
    {
        match find_chars(&rest, p) {
            None => {
                assert(remove_all(rest@, p@) == rest@);
                out = concat(&out, &rest);
                return out;
            },
            Some(i) => {
                proof {
                    lemma_find_occurs(rest@, p@, 0);
                }
                let n = rest.len();
                let head = slice_chars(&rest, 0, i);
                let tail = slice_chars(&rest, i + p.len(), n);
                assert(head@ =~= rest@.take(i as int));
                assert(tail@ =~= rest@.skip(i + p@.len()));
                out = concat(&out, &head);
                rest = tail;
            },
        }
    }
}

impl RepoService {
    /// The owner of a new repository: the project unless the request names one.
    pub fn owner_of(req: &CreateRepoRequest) -> (r: String)
        ensures
            r@ == (match req.owner {
                Some(o) => o@,
                None => "PaganLinux"@,
            }),
    {
        match &req.owner {
            Some(o) => owned(o.as_str()),
            None => owned("PaganLinux"),
        }
    }

    /// `OWNER/NAME`.
    pub fn full_name(owner: &str, name: &str) -> (r: String)
        ensures
            r@ == owner@ + seq!['/'] + name@,
    {
        let slash = vec!['/'];
        assert(slash@ =~= seq!['/']);
        string_from(&concat(&concat(&chars_of(owner), &slash), &chars_of(name)))
    }

    /// Where the forge's API creates a repository: under the project's
    /// organisation, or under the calling user.
    pub fn gitea_create_url(api_url: &str, owner: &str) -> (r: String)
        ensures
            r@ == (if owner@ == "PaganLinux"@ {
                api_url@ + "/orgs/"@ + owner@ + "/repos"@
            } else {
                api_url@ + "/user/repos"@
            }),
    {
        if str_eq(owner, "PaganLinux") {
            let a = concat(&chars_of(api_url), &chars_of("/orgs/"));
            let b = concat(&a, &chars_of(owner));
            string_from(&concat(&b, &chars_of("/repos")))
        } else {
            string_from(&concat(&chars_of(api_url), &chars_of("/user/repos")))
        }
    }

    /// The `Authorization` header sent to the forge's API.
    pub fn gitea_auth_header(token: &str) -> (r: String)
        ensures
            r@ == "token "@ + token@,
    {
        string_from(&concat(&chars_of("token "), &chars_of(token)))
    }

    /// The repository a push event names, or `unknown`.
    pub fn webhook_repo_name(payload: &WebhookPayload) -> (r: String)
        ensures
            r@ == (match payload.repository {
                Some(repo) => match repo.full_name {
                    Some(n) => n@,
                    None => "unknown"@,
                },
                None => "unknown"@,
            }),
    {
        match &payload.repository {
            Some(repo) => match &repo.full_name {
                Some(n) => owned(n.as_str()),
                None => owned("unknown"),
            },
            None => owned("unknown"),
        }
    }

    /// The branch a push event is for: its reference without `refs/heads/`.
    pub fn webhook_branch(payload: &WebhookPayload) -> (r: String)
        ensures
            r@ == remove_all(
                match payload.ref_name {
                    Some(s) => s@,
                    None => ""@,
                },
                "refs/heads/"@,
            ),
    {
        let reference = match &payload.ref_name {
            Some(s) => chars_of(s.as_str()),
            None => Vec::new(),
        };
        let pat = chars_of("refs/heads/");
        proof {
            reveal_strlit("refs/heads/");
            reveal_strlit("");
        }
        string_from(&remove_all_of(&reference, &pat))
    }

    /// Only a push to `main` starts a build.
    pub fn push_triggers_build(payload: &WebhookPayload) -> (r: bool)
        ensures
            r == (remove_all(
                match payload.ref_name {
                    Some(s) => s@,
                    None => ""@,
                },
                "refs/heads/"@,
            ) == "main"@),
    {
        let branch = Self::webhook_branch(payload);
        str_eq(branch.as_str(), "main")
    }
}

} // verus!
