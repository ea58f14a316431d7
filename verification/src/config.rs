use vstd::prelude::*;
use crate::text::{chars_of, concat, string_from, trim_end_char, trim_end_matches, owned, str_eq, string_views};

verus! {

/// Configuration of the package manager.
#[derive(Debug, Clone)]
pub struct Config {
    pub general: GeneralConfig,
    pub repositories: Vec<Repository>,
    pub network: NetworkConfig,
    pub security: SecurityConfig,
    pub flatpak: FlatpakConfig,
}

/// General settings.
#[derive(Debug, Clone)]
pub struct GeneralConfig {
    pub root: String,
    pub db_path: String,
    pub cache_path: String,
    pub log_path: String,
    pub parallel_downloads: usize,
    pub lang: String,
    pub autoclean: bool,
    pub check_disk_space: bool,
    pub show_progress: bool,
}

/// A package repository.
#[derive(Debug, Clone)]
pub struct Repository {
    pub name: String,
    pub url: String,
    pub mirror: Option<String>,
    pub enabled: bool,
    /// Lower is preferred.
    pub priority: u32,
    pub arch: String,
    pub branch: String,
}

/// Network settings.
#[derive(Debug, Clone)]
pub struct NetworkConfig {
    /// Seconds.
    pub timeout: u64,
    pub retries: u32,
    pub proxy: Option<String>,
    /// Bytes per second, 0 for no limit.
    pub rate_limit: u64,
    pub user_agent: String,
    pub ipv6: bool,
}

/// Security settings.
#[derive(Debug, Clone)]
pub struct SecurityConfig {
    pub require_signatures: bool,
    pub keyring_path: String,
    pub trusted_keys: Vec<String>,
    pub verify_checksums: bool,
    pub use_sandbox: bool,
}

/// Flatpak settings.
#[derive(Debug, Clone)]
pub struct FlatpakConfig {
    pub enabled: bool,
    pub remotes: Vec<FlatpakRemote>,
    pub auto_update: bool,
}

/// A Flatpak remote.
#[derive(Debug, Clone)]
pub struct FlatpakRemote {
    pub name: String,
    pub url: String,
}

fn lit(s: &str) -> (r: String)
    ensures
        r@ == s@,
{
    string_from(&chars_of(s))
}

pub fn default_root() -> (r: String)
    ensures
        r@ == "/"@,
{
    lit("/")
}

pub fn default_db_path() -> (r: String)
    ensures
        r@ == "/var/lib/pag/db.sqlite"@,
{
    lit("/var/lib/pag/db.sqlite")
}

pub fn default_cache_path() -> (r: String)
    ensures
        r@ == "/var/cache/pag"@,
{
    lit("/var/cache/pag")
}

pub fn default_log_path() -> (r: String)
    ensures
        r@ == "/var/log/pag"@,
{
    lit("/var/log/pag")
}

pub fn default_parallel_downloads() -> (r: usize)
    ensures
        r == 5,
{
    5
}

pub fn default_branch() -> (r: String)
    ensures
        r@ == "main"@,
{
    lit("main")
}

pub fn default_timeout() -> (r: u64)
    ensures
        r == 30,
{
    30
}

/// `pag/` and the package manager's version.
pub fn default_user_agent() -> (r: String)
    ensures
        r@ == "pag/0.1.0"@,
{
    lit("pag/0.1.0")
}

pub fn default_keyring_path() -> (r: String)
    ensures
        r@ == "/etc/pag/trusted.gpg"@,
{
    lit("/etc/pag/trusted.gpg")
}

pub fn default_true() -> (r: bool)
    ensures
        r,
{
    true
}

/// A repository of the official server: enabled, no mirror, branch `main`.
pub open spec fn official_repo(r: Repository, name: Seq<char>, url: Seq<char>, priority: u32, arch: Seq<char>) -> bool {
    &&& r.name@ == name
    &&& r.url@ == url
    &&& r.mirror is None
    &&& r.enabled
    &&& r.priority == priority
    &&& r.arch@ == arch
    &&& r.branch@ == "main"@
}

/// The official repositories core, extra and community, for architecture `arch`.
pub fn default_repositories(arch: &str) -> (r: Vec<Repository>)
    ensures
        r@.len() == 3,
        official_repo(r@[0], "core"@, "https://repos.paganlinux.eu/core"@, 0, arch@),
        official_repo(r@[1], "extra"@, "https://repos.paganlinux.eu/extra"@, 10, arch@),
        official_repo(r@[2], "community"@, "https://repos.paganlinux.eu/community"@, 20, arch@),
{
    let mut r: Vec<Repository> = Vec::new();
    r.push(Repository {
        name: lit("core"),
        url: lit("https://repos.paganlinux.eu/core"),
        mirror: None,
        enabled: true,
        priority: 0,
        arch: lit(arch),
        branch: lit("main"),
    });
    r.push(Repository {
        name: lit("extra"),
        url: lit("https://repos.paganlinux.eu/extra"),
        mirror: None,
        enabled: true,
        priority: 10,
        arch: lit(arch),
        branch: lit("main"),
    });
    r.push(Repository {
        name: lit("community"),
        url: lit("https://repos.paganlinux.eu/community"),
        mirror: None,
        enabled: true,
        priority: 20,
        arch: lit(arch),
        branch: lit("main"),
    });
    r
}

/// Flathub.
pub fn default_flatpak_remotes() -> (r: Vec<FlatpakRemote>)
    ensures
        r@.len() == 1,
        r@[0].name@ == "flathub"@,
        r@[0].url@ == "https://flathub.org/repo/flathub.flatpakrepo"@,
{
    let mut r: Vec<FlatpakRemote> = Vec::new();
    r.push(FlatpakRemote { name: lit("flathub"), url: lit("https://flathub.org/repo/flathub.flatpakrepo") });
    r
}

impl Default for GeneralConfig {
    fn default() -> (r: Self)
        ensures
            r.root@ == "/"@,
            r.db_path@ == "/var/lib/pag/db.sqlite"@,
            r.cache_path@ == "/var/cache/pag"@,
            r.log_path@ == "/var/log/pag"@,
            r.parallel_downloads == 5,
            r.lang@ == Seq::<char>::empty(),
            !r.autoclean,
            r.check_disk_space,
            r.show_progress,
    {
        GeneralConfig {
            root: default_root(),
            db_path: default_db_path(),
            cache_path: default_cache_path(),
            log_path: default_log_path(),
            parallel_downloads: default_parallel_downloads(),
            lang: String::new(),
            autoclean: false,
            check_disk_space: true,
            show_progress: true,
        }
    }
}

impl Default for NetworkConfig {
    fn default() -> (r: Self)
        ensures
            r.timeout == 30,
            r.retries == 3,
            r.proxy is None,
            r.rate_limit == 0,
            r.user_agent@ == "pag/0.1.0"@,
            r.ipv6,
    {
        NetworkConfig {
            timeout: default_timeout(),
            retries: 3,
            proxy: None,
            rate_limit: 0,
            user_agent: default_user_agent(),
            ipv6: true,
        }
    }
}

impl Default for SecurityConfig {
    fn default() -> (r: Self)
        ensures
            r.require_signatures,
            r.keyring_path@ == "/etc/pag/trusted.gpg"@,
            r.trusted_keys@.len() == 0,
            r.verify_checksums,
            r.use_sandbox,
    {
        SecurityConfig {
            require_signatures: true,
            keyring_path: default_keyring_path(),
            trusted_keys: Vec::new(),
            verify_checksums: true,
            use_sandbox: true,
        }
    }
}

impl Default for FlatpakConfig {
    fn default() -> (r: Self)
        ensures
            r.enabled,
            r.remotes@.len() == 1,
            r.remotes@[0].name@ == "flathub"@,
            r.remotes@[0].url@ == "https://flathub.org/repo/flathub.flatpakrepo"@,
            !r.auto_update,
    {
        FlatpakConfig { enabled: true, remotes: default_flatpak_remotes(), auto_update: false }
    }
}

impl Default for Config {
    /// Every section at its default, and no repositories.
    fn default() -> (r: Self)
        ensures
            r.general.root@ == "/"@,
            r.general.db_path@ == "/var/lib/pag/db.sqlite"@,
            r.general.cache_path@ == "/var/cache/pag"@,
            r.general.log_path@ == "/var/log/pag"@,
            r.general.parallel_downloads == 5,
            r.general.lang@ == Seq::<char>::empty(),
            !r.general.autoclean,
            r.general.check_disk_space,
            r.general.show_progress,
            r.repositories@.len() == 0,
            r.network.timeout == 30,
            r.network.retries == 3,
            r.network.proxy is None,
            r.network.rate_limit == 0,
            r.network.user_agent@ == "pag/0.1.0"@,
            r.network.ipv6,
            r.security.require_signatures,
            r.security.keyring_path@ == "/etc/pag/trusted.gpg"@,
            r.security.trusted_keys@.len() == 0,
            r.security.verify_checksums,
            r.security.use_sandbox,
            r.flatpak.enabled,
            r.flatpak.remotes@.len() == 1,
            r.flatpak.remotes@[0].name@ == "flathub"@,
            r.flatpak.remotes@[0].url@ == "https://flathub.org/repo/flathub.flatpakrepo"@,
            !r.flatpak.auto_update,
    {
        Config {
            general: GeneralConfig::default(),
            repositories: Vec::new(),
            network: NetworkConfig::default(),
            security: SecurityConfig::default(),
            flatpak: FlatpakConfig::default(),
        }
    }
}

/// Inserts `x` after every element of `s` whose priority is not higher.
pub open spec fn insert_by_priority(s: Seq<Repository>, x: Repository) -> Seq<Repository>
    decreases s.len(),
{
    if s.len() == 0 {
        seq![x]
    } else if s.last().priority <= x.priority {
        s.push(x)
    } else {
        insert_by_priority(s.drop_last(), x).push(s.last())
    }
}

/// The stable sort of `s` by priority (what `sort_by_key` gives).
pub open spec fn sort_by_priority(s: Seq<Repository>) -> Seq<Repository>
    decreases s.len(),
{
    if s.len() == 0 {
        seq![]
    } else {
        insert_by_priority(sort_by_priority(s.drop_last()), s.last())
    }
}

/// The enabled repositories, in order.
pub open spec fn enabled_repos(s: Seq<Repository>) -> Seq<Repository> {
    s.filter(is_enabled())
}

pub open spec fn is_enabled() -> spec_fn(Repository) -> bool {
    |r: Repository| r.enabled
}

/// Priorities never decrease along `s`.
pub open spec fn priority_sorted(s: Seq<Repository>) -> bool {
    forall|i: int, j: int| 0 <= i <= j < s.len() ==> s[i].priority <= s[j].priority
}

proof fn lemma_insert_bound(s: Seq<Repository>, x: Repository, b: u32)
    requires
        forall|i: int| 0 <= i < s.len() ==> #[trigger] s[i].priority <= b,
        x.priority <= b,
    ensures
        insert_by_priority(s, x).len() == s.len() + 1,
        forall|i: int| 0 <= i < s.len() + 1 ==> #[trigger] insert_by_priority(s, x)[i].priority <= b,
    decreases s.len(),
{
    if s.len() > 0 && s.last().priority > x.priority {
        lemma_insert_bound(s.drop_last(), x, b);
    }
}

proof fn lemma_insert_sorted(s: Seq<Repository>, x: Repository)
    requires
        priority_sorted(s),
    ensures
        priority_sorted(insert_by_priority(s, x)),
        insert_by_priority(s, x).len() == s.len() + 1,
        insert_by_priority(s, x).to_multiset() == s.to_multiset().insert(x),
    decreases s.len(),
{
    broadcast use vstd::multiset::group_multiset_axioms;
    if s.len() == 0 {
        assert(s =~= Seq::<Repository>::empty());
        assert(seq![x] =~= s.push(x));
        vstd::seq_lib::to_multiset_build(s, x);
    } else if s.last().priority <= x.priority {
        vstd::seq_lib::to_multiset_build(s, x);
    } else {
        let d = s.drop_last();
        assert(priority_sorted(d));
        lemma_insert_sorted(d, x);
        lemma_insert_bound(d, x, s.last().priority);
        let r = insert_by_priority(d, x);
        vstd::seq_lib::to_multiset_build(r, s.last());
        vstd::seq_lib::to_multiset_build(d, s.last());
        assert(d.push(s.last()) =~= s);
        assert(r.push(s.last()).to_multiset() =~= s.to_multiset().insert(x));
    }
}

proof fn lemma_sort_sorted(s: Seq<Repository>)
    ensures
        priority_sorted(sort_by_priority(s)),
        sort_by_priority(s).len() == s.len(),
        sort_by_priority(s).to_multiset() == s.to_multiset(),
    decreases s.len(),
{
    broadcast use vstd::multiset::group_multiset_axioms;
    if s.len() == 0 {
        assert(s =~= Seq::<Repository>::empty());
        assert(sort_by_priority(s) =~= s);
    } else {
        lemma_sort_sorted(s.drop_last());
        lemma_insert_sorted(sort_by_priority(s.drop_last()), s.last());
        vstd::seq_lib::to_multiset_build(s.drop_last(), s.last());
        assert(s.drop_last().push(s.last()) =~= s);
    }
}

/// `active_repos` lists exactly the enabled repositories, each as often as
/// it is configured, in ascending order of priority.
pub proof fn lemma_active_repos_sorted(repositories: Seq<Repository>)
    ensures
        priority_sorted(sort_by_priority(enabled_repos(repositories))),
        sort_by_priority(enabled_repos(repositories)).to_multiset() == enabled_repos(repositories).to_multiset(),
        forall|i: int| 0 <= i < sort_by_priority(enabled_repos(repositories)).len() ==> (#[trigger] sort_by_priority(enabled_repos(repositories))[i]).enabled,
{
    let e = enabled_repos(repositories);
    lemma_sort_sorted(e);
    assert forall|i: int| 0 <= i < sort_by_priority(e).len() implies (#[trigger] sort_by_priority(e)[i]).enabled by {
        let x = sort_by_priority(e)[i];
        assert(sort_by_priority(e).contains(x));
        vstd::seq_lib::to_multiset_contains(sort_by_priority(e), x);
        assert(sort_by_priority(e).to_multiset().count(x) > 0);
        assert(e.to_multiset().count(x) > 0);
        vstd::seq_lib::to_multiset_contains(e, x);
        assert(e.contains(x));
        let k = choose|k: int| 0 <= k < e.len() && e[k] == x;
        repositories.lemma_filter_pred(is_enabled(), k);
    }
}

fn insert_sorted<'a>(v: &mut Vec<&'a Repository>, x: &'a Repository)
    ensures
        final(v)@.map_values(|r: &Repository| *r) == insert_by_priority(old(v)@.map_values(|r: &Repository| *r), *x),
{
    let ghost s0 = v@.map_values(|r: &Repository| *r);
    v.push(x);
    let mut i = v.len() - 1;
    proof {
        assert(v@.map_values(|r: &Repository| *r) =~= s0.push(*x));
        assert(s0.take(i as int) =~= s0);
        assert(s0.skip(i as int) =~= Seq::<Repository>::empty());
        assert(insert_by_priority(s0, *x) + Seq::<Repository>::empty() =~= insert_by_priority(s0, *x));
    }
    while i > 0 && v[i - 1].priority > x.priority
        invariant
            0 <= i < v@.len(),
            v@.len() == s0.len() + 1,
            *v@[i as int] == *x,
            insert_by_priority(s0, *x) == insert_by_priority(s0.take(i as int), *x) + s0.skip(i as int),
            forall|k: int| 0 <= k < i ==> *v@[k] == s0[k],
            forall|k: int| i < k < v@.len() ==> *v@[k] == s0[k - 1],
        decreases i,
    {
        let prev = v[i - 1];
        proof {
            assert(s0.take(i as int).drop_last() =~= s0.take(i - 1));
            assert(s0.take(i as int).last() == s0[i - 1]);
            assert(insert_by_priority(s0.take(i as int), *x) == insert_by_priority(s0.take(i - 1), *x).push(s0[i - 1]));
            assert(insert_by_priority(s0.take(i - 1), *x).push(s0[i - 1]) + s0.skip(i as int) =~= insert_by_priority(s0.take(i - 1), *x) + s0.skip(i - 1));
        }
        v.set(i, prev);
        v.set(i - 1, x);
        i = i - 1;
    }
    proof {
        if i > 0 {
            assert(s0.take(i as int).last() == s0[i - 1]);
            assert(insert_by_priority(s0.take(i as int), *x) == s0.take(i as int).push(*x));
        } else {
            assert(insert_by_priority(s0.take(0), *x) =~= seq![*x]);
        }
        assert(v@.map_values(|r: &Repository| *r) =~= insert_by_priority(s0, *x));
    }
}

impl Config {
    /// The enabled repositories, ordered by priority (lowest first; equal
    /// priorities keep their configured order).
    pub fn active_repos(&self) -> (r: Vec<&Repository>)
        ensures
            r@.map_values(|x: &Repository| *x) == sort_by_priority(enabled_repos(self.repositories@)),
    {
        let mut r: Vec<&Repository> = Vec::new();
        let mut i: usize = 0;
        proof {
            assert(r@.map_values(|x: &Repository| *x) =~= Seq::<Repository>::empty());
            assert(self.repositories@.take(0) =~= Seq::<Repository>::empty());
            assert(enabled_repos(self.repositories@.take(0)) =~= Seq::<Repository>::empty());
        }
        while i < self.repositories.len()
            invariant
                i <= self.repositories@.len(),
                r@.map_values(|x: &Repository| *x) == sort_by_priority(enabled_repos(self.repositories@.take(i as int))),
            decreases self.repositories@.len() - i,
        {
            let repo = &self.repositories[i];
            proof {
                assert(self.repositories@.take(i + 1) =~= self.repositories@.take(i as int).push(self.repositories@[i as int]));
                self.repositories@.take(i as int).lemma_filter_push(self.repositories@[i as int], is_enabled());
            }
            if repo.enabled {
                insert_sorted(&mut r, repo);
                proof {
                    let e = enabled_repos(self.repositories@.take(i as int));
                    assert(e.push(*repo).drop_last() =~= e);
                }
            }
            i = i + 1;
        }
        assert(self.repositories@.take(self.repositories@.len() as int) =~= self.repositories@);
        r
    }
}

/// The configuration file under an installation root.
pub open spec fn config_file_under(root: Seq<char>) -> Seq<char> {
    trim_end_char(root, '/') + "/etc/pag/config.toml"@
}

/// `ROOT/etc/pag/config.toml`, `ROOT` without trailing slashes.
pub fn config_path_for(root: &str) -> (r: String)
    ensures
        r@ == config_file_under(root@),
{
    let a = trim_end_matches(&chars_of(root), '/');
    string_from(&concat(&a, &chars_of("/etc/pag/config.toml")))
}

/// The configuration files looked for, in order: the one under `root`,
/// then the system one.
pub fn config_search_paths(root: &str) -> (r: Vec<String>)
    ensures
        string_views(r@) == seq![config_file_under(root@), "/etc/pag/config.toml"@],
{
    let mut v: Vec<String> = Vec::new();
    let a = config_path_for(root);
    let b = owned("/etc/pag/config.toml");
    v.push(a);
    v.push(b);
    assert(string_views(v@) =~= seq![config_file_under(root@), "/etc/pag/config.toml"@]);
    v
}

impl Config {
    /// The configuration used when no file exists: the defaults, installing
    /// into `root`.
    pub fn for_root(root: &str) -> (r: Self)
        ensures
            r.general.root@ == root@,
            r.general.db_path@ == "/var/lib/pag/db.sqlite"@,
            r.general.cache_path@ == "/var/cache/pag"@,
            r.repositories@.len() == 0,
            r.network.timeout == 30,
            r.security.require_signatures,
            r.flatpak.enabled,
    {
        let mut c = Config::default();
        c.general.root = owned(root);
        c
    }

    /// A configuration read from a file, for the root given on the command
    /// line: any root other than `/` replaces the file's.
    pub fn apply_root(&mut self, root: &str)
        ensures
            final(self).general.root@ == (if root@ == "/"@ { old(self).general.root@ } else { root@ }),
            final(self).repositories == old(self).repositories,
            final(self).general.db_path == old(self).general.db_path,
            final(self).general.cache_path == old(self).general.cache_path,
    {
        if !str_eq(root, "/") {
            self.general.root = owned(root);
        }
    }
}

/// The text of a generated configuration file: two comment lines, a blank
/// line, then the settings.
pub fn default_config_text(settings: &str) -> (r: String)
    ensures
        r@ == "# PaganLinux Package Manager - Konfiguracja\n# https://paganlinux.eu/docs/pag-config\n\n"@ + settings@,
{
    string_from(&concat(
        &chars_of("# PaganLinux Package Manager - Konfiguracja\n# https://paganlinux.eu/docs/pag-config\n\n"),
        &chars_of(settings),
    ))
}

} // verus!
