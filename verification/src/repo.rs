use vstd::prelude::*;
use crate::text::chars_of;
use crate::text::string_from;
use crate::text::str_eq;
use crate::text::concat;
use crate::text::trim_end_matches;
use crate::text::trim_end_char;
use crate::config::Repository;
use crate::config::default_branch;
use crate::config::is_enabled;

verus! {

// ───────────────────────── addresses ─────────────────────────

/// The address of `file` in a repository: `URL/ARCH/BRANCH/FILE`, the URL
/// without trailing slashes.
pub open spec fn repo_file_url(url: Seq<char>, arch: Seq<char>, branch: Seq<char>, file: Seq<char>) -> Seq<char> {
    trim_end_char(url, '/') + seq!['/'] + arch + seq!['/'] + branch + seq!['/'] + file
}

fn file_url(repo: &Repository, file: &[char]) -> (r: String)
    ensures
        r@ == repo_file_url(repo.url@, repo.arch@, repo.branch@, file@),
{
    let slash = vec!['/'];
    assert(slash@ =~= seq!['/']);
    let base = trim_end_matches(&chars_of(repo.url.as_str()), '/');
    let a = concat(&concat(&base, &slash), &chars_of(repo.arch.as_str()));
    let b = concat(&concat(&a, &slash), &chars_of(repo.branch.as_str()));
    let c = concat(&concat(&b, &slash), file);
    string_from(&c)
}

/// Where a repository's index lies.
pub fn index_url(repo: &Repository) -> (r: String)
    ensures
        r@ == repo_file_url(repo.url@, repo.arch@, repo.branch@, "index.json"@),
{
    file_url(repo, &chars_of("index.json"))
}

/// Where a package file of a repository lies.
pub fn package_url(repo: &Repository, filename: &str) -> (r: String)
    ensures
        r@ == repo_file_url(repo.url@, repo.arch@, repo.branch@, filename@),
{
    file_url(repo, &chars_of(filename))
}

/// Where the signature of a package file lies: the file's address and `.sig`.
pub fn signature_url(repo: &Repository, filename: &str) -> (r: String)
    ensures
        r@ == repo_file_url(repo.url@, repo.arch@, repo.branch@, filename@ + ".sig"@),
{
    file_url(repo, &concat(&chars_of(filename), &chars_of(".sig")))
}

/// The key server query that `pag key fetch` sends for `keyid`.
pub fn key_lookup_url(keyid: &str) -> (r: String)
    ensures
        r@ == "https://keyserver.ubuntu.com/pks/lookup?op=get&search=0x"@ + keyid@,
{
    string_from(&concat(&chars_of("https://keyserver.ubuntu.com/pks/lookup?op=get&search=0x"), &chars_of(keyid)))
}

// ───────────────────────── configured repositories ─────────────────────────

/// The repository `pag repo add` appends to a list of `count` entries.
pub fn new_repository(name: String, url: String, count: usize, arch: String) -> (r: Repository)
    requires
        count * 10 <= usize::MAX,
    ensures
        r.name == name,
        r.url == url,
        r.mirror is None,
        r.enabled,
        r.priority == (count * 10) as u32,
        r.arch == arch,
        r.branch@ == "main"@,
{
    let p: usize = count * 10;
    #[verifier::truncate]
    let priority: u32 = p as u32;
    Repository { name, url, mirror: None, enabled: true, priority, arch, branch: default_branch() }
}

/// `pag repo add`: appends the repository `name` at `url`, with the
/// priority that follows the ones configured.
pub fn add_repository(repos: &mut Vec<Repository>, name: String, url: String, arch: String)
    requires
        old(repos)@.len() * 10 <= usize::MAX,
    ensures
        final(repos)@.len() == old(repos)@.len() + 1,
        final(repos)@.take(old(repos)@.len() as int) == old(repos)@,
        ({
            let r = final(repos)@.last();
            &&& r.name == name
            &&& r.url == url
            &&& r.mirror is None
            &&& r.enabled
            &&& r.priority == (old(repos)@.len() * 10) as u32
            &&& r.arch == arch
            &&& r.branch@ == "main"@
        }),
{
    let n = repos.len();
    let r = new_repository(name, url, n, arch);
    repos.push(r);
    assert(repos@.take(n as int) =~= old(repos)@);
}

/// Repositories not named `name`.
pub open spec fn not_named(name: Seq<char>) -> spec_fn(Repository) -> bool {
    |r: Repository| r.name@ != name
}

/// `pag repo remove`: drops every repository named `name`, keeping the
/// order of the others.
pub fn remove_repository(repos: &mut Vec<Repository>, name: &str)
    ensures
        final(repos)@ == old(repos)@.filter(not_named(name@)),
{
    let ghost orig = repos@;
    let mut i: usize = 0;
    let mut k: usize = 0;
    assert(orig.take(0).filter(not_named(name@)) =~= Seq::<Repository>::empty()) by {
        reveal(Seq::filter);
    }
    assert(orig.skip(0) =~= orig);
    let n = repos.len();
    while k < n
        invariant
            n == orig.len(),
            k <= orig.len(),
            i == orig.take(k as int).filter(not_named(name@)).len(),
            repos@ == orig.take(k as int).filter(not_named(name@)) + orig.skip(k as int),
        decreases orig.len() - k,
    {
        proof {
            assert(orig.take(k + 1) =~= orig.take(k as int).push(orig[k as int]));
            orig.take(k as int).lemma_filter_push(orig[k as int], not_named(name@));
            assert(repos@[i as int] == orig[k as int]);
        }
        if str_eq(repos[i].name.as_str(), name) {
            let _ = repos.remove(i);
            assert(repos@ =~= orig.take(k + 1).filter(not_named(name@)) + orig.skip(k + 1));
        } else {
            i = i + 1;
            assert(repos@ =~= orig.take(k + 1).filter(not_named(name@)) + orig.skip(k + 1));
        }
        k = k + 1;
    }
    assert(orig.take(orig.len() as int) =~= orig);
    assert(repos@ =~= orig.filter(not_named(name@)));
}

/// Removing repositories by name undoes adding one of that name: what is
/// left is what removal leaves of the list before the addition.
pub proof fn lemma_remove_undoes_add(repos: Seq<Repository>, added: Repository, name: Seq<char>)
    requires
        added.name@ == name,
    ensures
        repos.push(added).filter(not_named(name)) == repos.filter(not_named(name)),
{
    repos.lemma_filter_push(added, not_named(name));
}

/// The repositories that `pag repo update` refreshes: the one named, or all
/// enabled ones.
pub open spec fn update_selection(repos: Seq<Repository>, name: Option<Seq<char>>) -> Seq<Repository> {
    match name {
        Some(n) => repos.filter(named(n)),
        None => repos.filter(is_enabled()),
    }
}

/// Repositories named `name`.
pub open spec fn named(name: Seq<char>) -> spec_fn(Repository) -> bool {
    |r: Repository| r.name@ == name
}

/// Selects `update_selection`.
pub fn repos_to_update<'a>(repos: &'a Vec<Repository>, name: Option<&str>) -> (r: Vec<&'a Repository>)
    ensures
        r@.map_values(|x: &Repository| *x) == update_selection(repos@, match name {
            Some(n) => Some(n@),
            None => None,
        }),
{
    let ghost sel = match name {
        Some(n) => Some(n@),
        None => None::<Seq<char>>,
    };
    let ghost pred: spec_fn(Repository) -> bool = match name {
        Some(n) => named(n@),
        None => is_enabled(),
    };
    assert(update_selection(repos@, sel) == repos@.filter(pred));
    let mut r: Vec<&Repository> = Vec::new();
    let mut i: usize = 0;
    assert(repos@.take(0).filter(pred) =~= Seq::<Repository>::empty()) by {
        reveal(Seq::filter);
    }
    assert(r@.map_values(|x: &Repository| *x) =~= Seq::<Repository>::empty());
    while i < repos.len()
        invariant
            i <= repos@.len(),
            pred == (match name {
                Some(n) => named(n@),
                None => is_enabled(),
            }),
            r@.map_values(|x: &Repository| *x) == repos@.take(i as int).filter(pred),
        decreases repos@.len() - i,
    {
        proof {
            assert(repos@.take(i + 1) =~= repos@.take(i as int).push(repos@[i as int]));
            repos@.take(i as int).lemma_filter_push(repos@[i as int], pred);
        }
        let keep = match name {
            Some(n) => str_eq(repos[i].name.as_str(), n),
            None => repos[i].enabled,
        };
        let ghost before = r@;
        if keep {
            r.push(&repos[i]);
            assert(r@.map_values(|x: &Repository| *x) =~= before.map_values(|x: &Repository| *x).push(repos@[i as int]));
        }
        i = i + 1;
    }
    assert(repos@.take(repos@.len() as int) =~= repos@);
    r
}

/// The first repository named `name` (where `pag download` fetches from).
pub fn find_repository(repos: &Vec<Repository>, name: &str) -> (r: Option<usize>)
    ensures
        match r {
            Some(i) => i < repos@.len() && repos@[i as int].name@ == name@ && forall|k: int|
                0 <= k < i ==> #[trigger] repos@[k].name@ != name@,
            None => forall|k: int| 0 <= k < repos@.len() ==> #[trigger] repos@[k].name@ != name@,
        },
{
    let mut i: usize = 0;
    while i < repos.len()
        invariant
            i <= repos@.len(),
            forall|k: int| 0 <= k < i ==> #[trigger] repos@[k].name@ != name@,
        decreases repos@.len() - i,
    {
        if str_eq(repos[i].name.as_str(), name) {
            return Some(i);
        }
        i = i + 1;
    }
    None
}

} // verus!
