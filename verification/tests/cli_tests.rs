use pag::cli_types::{check_permissions, needs_root, Commands, PermissionError, RepoCommand};
use pag::commands::{
    cache_package_name, check_verdict, file_removal, find_entry, first_occurrences, in_group,
    install_reason_for, install_step, is_config_file, is_shared_dir, is_unused_cache_file,
    join_words, list_label, list_reason, missing_files, operation_icon, path_under_root,
    reason_label, reason_marker, removal_targets, require_args, search_matches, should_unpack,
    sorted_names, CheckVerdict, CommandError, FileRemoval, InstallStep,
};
use pag::config::{Config, Repository};
use pag::db::{InstallReason, InstalledPackage};
use pag::flatpak::{is_available_as_flatpak, parse_flatpak_output};
use pag::i18n::{init, I18n};
use pag::package::{PackageHeader, RepoPackageEntry};
use pag::repo::{
    add_repository, find_repository, index_url, key_lookup_url, new_repository, package_url,
    remove_repository, repos_to_update, signature_url,
};

fn strings(v: &[&str]) -> Vec<String> {
    v.iter().map(|s| s.to_string()).collect()
}

fn repo(name: &str, enabled: bool, priority: u32) -> Repository {
    Repository {
        name: name.into(),
        url: format!("https://repo.example/{}/", name),
        mirror: None,
        enabled,
        priority,
        arch: "x86_64".into(),
        branch: "main".into(),
    }
}

#[test]
fn root_is_needed_for_system_changes() {
    let install = Commands::Install { packages: strings(&["nginx"]), as_deps: false, overwrite: false, ignore_deps: false };
    assert!(needs_root(&install));
    assert_eq!(check_permissions("/", &install, 1000), Err(PermissionError::RootRequired));
    assert_eq!(check_permissions("/", &install, 0), Ok(()));
    assert_eq!(check_permissions("/mnt/target", &install, 1000), Ok(()));
    let check = Commands::Check { packages: vec![], fix: false };
    assert!(!needs_root(&check));
    assert_eq!(check_permissions("/", &check, 1000), Ok(()));
    let fix = Commands::Check { packages: vec![], fix: true };
    assert!(needs_root(&fix));
    assert!(!needs_root(&Commands::Repo { action: RepoCommand::List }));
    assert_eq!(PermissionError::RootRequired.message(), "Ta operacja wymaga uprawnień roota. Użyj sudo.");
}

#[test]
fn empty_arguments_are_refused() {
    assert_eq!(require_args(&vec![], CommandError::NoPackagesToInstall), Err(CommandError::NoPackagesToInstall));
    assert_eq!(require_args(&strings(&["a"]), CommandError::NoPackagesToRemove), Ok(()));
    assert_eq!(CommandError::EmptySearchPattern.message(), "Podaj wzorzec wyszukiwania");
    assert_eq!(CommandError::NoPackagesToDownload.message(), "Nie podano pakietów do pobrania");
}

#[test]
fn install_decisions() {
    assert_eq!(install_reason_for(true), InstallReason::Dependency);
    assert_eq!(install_reason_for(false), InstallReason::Explicit);
    assert_eq!(install_step(true, true), InstallStep::Report);
    assert_eq!(install_step(false, true), InstallStep::AlreadyInstalled);
    assert_eq!(install_step(false, false), InstallStep::Fetch);
    assert!(should_unpack(false, false));
    assert!(should_unpack(true, true));
    assert!(!should_unpack(true, false));
}

#[test]
fn first_index_entry_with_the_name() {
    let a = RepoPackageEntry::from_header(&PackageHeader::new("a", "1", "x86_64"));
    let b1 = RepoPackageEntry::from_header(&PackageHeader::new("b", "1", "x86_64"));
    let b2 = RepoPackageEntry::from_header(&PackageHeader::new("b", "2", "x86_64"));
    let entries = vec![a, b1, b2];
    assert_eq!(find_entry(&entries, "b"), Some(1));
    assert_eq!(find_entry(&entries, "c"), None);
}

#[test]
fn removal_rules() {
    assert!(is_config_file("/etc/nginx/nginx.conf"));
    assert!(!is_config_file("/etc/nginx/"));
    assert!(!is_config_file("/usr/bin/nginx"));
    assert!(is_shared_dir("/usr/share/"));
    assert!(!is_shared_dir("/usr/share/nginx/"));
    assert_eq!(path_under_root("/mnt/", "/usr/bin/x"), "/mnt/usr/bin/x");
    assert_eq!(path_under_root("/", "etc/a"), "/etc/a");
    assert_eq!(file_removal("/etc/a.conf", false, false, true), FileRemoval::Missing);
    assert_eq!(file_removal("/etc/a.conf", true, false, true), FileRemoval::KeepConfig);
    assert_eq!(file_removal("/etc/a.conf", true, false, false), FileRemoval::RemoveFile);
    assert_eq!(file_removal("/usr/lib/", true, true, false), FileRemoval::KeepSharedDir);
    assert_eq!(file_removal("/usr/lib/nginx/", true, true, false), FileRemoval::RemoveDir);
}

#[test]
fn removal_targets_are_sorted_with_orphans() {
    let pkgs = strings(&["zsh", "bash"]);
    let orphans = strings(&["libfoo", "bash"]);
    assert_eq!(removal_targets(&pkgs, &orphans, false), pkgs);
    assert_eq!(removal_targets(&pkgs, &orphans, true), strings(&["bash", "bash", "libfoo", "zsh"]));
    assert_eq!(sorted_names(&strings(&["b", "a", "ą", "B"])), strings(&["B", "a", "b", "ą"]));
}

#[test]
fn check_helpers() {
    let files = strings(&["/a", "/b", "/c"]);
    assert_eq!(missing_files(&files, &vec![true, false, false]), strings(&["/b", "/c"]));
    assert_eq!(check_verdict(0, true), CheckVerdict::AllSound);
    assert_eq!(check_verdict(2, true), CheckVerdict::Repaired);
    assert_eq!(check_verdict(2, false), CheckVerdict::NeedsRepair);
}

#[test]
fn cache_names() {
    assert_eq!(cache_package_name("nginx-1.26.0-r1-x86_64"), "nginx");
    assert_eq!(cache_package_name("zlib"), "zlib");
    let installed = strings(&["nginx"]);
    assert!(!is_unused_cache_file("nginx-1.0", &installed));
    assert!(is_unused_cache_file("apache-2.4", &installed));
}

#[test]
fn listing_helpers() {
    assert_eq!(list_reason(true, true), Some(InstallReason::Explicit));
    assert_eq!(list_reason(false, true), Some(InstallReason::Dependency));
    assert_eq!(list_reason(false, false), None);
    assert_eq!(list_label(false, true), "Zależności");
    assert_eq!(reason_marker(InstallReason::Dependency), " [dep]");
    assert_eq!(reason_marker(InstallReason::Explicit), "");
    assert_eq!(reason_label(InstallReason::Explicit), "jawnie zainstalowany");
    assert!(in_group(&Some("base".into()), "base"));
    assert!(!in_group(&None, "base"));
    assert_eq!(operation_icon("remove"), "📤");
    assert_eq!(operation_icon("other"), "ℹ️");
    let pkg = InstalledPackage {
        name: "a".into(),
        version: "1".into(),
        release: 1,
        description: String::new(),
        arch: "x86_64".into(),
        license: "MIT".into(),
        installed_size: 0,
        install_date: 0,
        install_reason: InstallReason::Dependency,
        group_name: Some("base".into()),
        url: None,
        maintainer: None,
    };
    assert!(in_group(&pkg.group_name, "base"));
}

#[test]
fn search_helpers() {
    assert_eq!(join_words(&strings(&["web", "server"])), "web server");
    assert_eq!(join_words(&vec![]), "");
    assert!(search_matches("nginx", "web server", "gin", false));
    assert!(!search_matches("nginx", "web server", "server", false));
    assert!(search_matches("nginx", "web server", "server", true));
    let firsts = first_occurrences(&strings(&["a", "b", "a", "c", "b"]));
    assert_eq!(firsts, strings(&["a", "b", "c"]));
}

#[test]
fn repository_addresses() {
    let r = repo("core", true, 0);
    assert_eq!(index_url(&r), "https://repo.example/core/x86_64/main/index.json");
    assert_eq!(package_url(&r, "a.pag"), "https://repo.example/core/x86_64/main/a.pag");
    assert_eq!(signature_url(&r, "a.pag"), "https://repo.example/core/x86_64/main/a.pag.sig");
    assert_eq!(key_lookup_url("ABCD"), "https://keyserver.ubuntu.com/pks/lookup?op=get&search=0xABCD");
}

#[test]
fn repository_add_and_remove() {
    let mut repos = vec![repo("core", true, 0), repo("extra", false, 10)];
    add_repository(&mut repos, "mine".into(), "https://m/".into(), "x86_64".into());
    assert_eq!(repos.len(), 3);
    assert_eq!(repos[2].priority, 20);
    assert_eq!(repos[2].branch, "main");
    assert!(repos[2].enabled);
    assert_eq!(find_repository(&repos, "mine"), Some(2));
    let r = new_repository("x".into(), "u".into(), 7, "aarch64".into());
    assert_eq!(r.priority, 70);
    remove_repository(&mut repos, "mine");
    assert_eq!(repos.len(), 2);
    assert_eq!(find_repository(&repos, "mine"), None);
    let names: Vec<&str> = repos_to_update(&repos, None).iter().map(|r| r.name.as_str()).collect();
    assert_eq!(names, vec!["core"]);
    let named: Vec<&str> = repos_to_update(&repos, Some("extra")).iter().map(|r| r.name.as_str()).collect();
    assert_eq!(named, vec!["extra"]);
}

#[test]
fn active_repositories_by_priority() {
    let mut cfg = Config::default();
    cfg.repositories = vec![repo("b", true, 20), repo("off", false, 0), repo("a", true, 10), repo("c", true, 20)];
    let names: Vec<&str> = cfg.active_repos().iter().map(|r| r.name.as_str()).collect();
    assert_eq!(names, vec!["a", "b", "c"]);
}

#[test]
fn messages_by_language() {
    let pl = init("pl");
    assert_eq!(pl.get("pag.error"), Some("Błąd: {msg}"));
    let xx = I18n::new("xx");
    assert_eq!(xx.get("pag.error"), Some("Error: {msg}"));
    assert_eq!(xx.get("no.such.key"), None);
}

#[test]
fn flatpak_listing() {
    let out = "Name\tApplication ID\tVersion\tBranch\tDescription\nFirefox\torg.mozilla.firefox\t128.0\tstable\tWeb browser\nshort\tline\n";
    let rows = parse_flatpak_output(out);
    assert_eq!(rows.len(), 1);
    assert_eq!(rows[0].app_id, "org.mozilla.firefox");
    assert!(is_available_as_flatpak(&rows, "org.mozilla.firefox"));
    assert!(!is_available_as_flatpak(&rows, "org.gimp.GIMP"));
}

#[test]
fn install_reason_codes_round_trip() {
    for r in [InstallReason::Explicit, InstallReason::Dependency] {
        assert_eq!(InstallReason::from_code(r.code()), r);
    }
    assert_eq!(InstallReason::from_code(7), InstallReason::Dependency);
}

#[test]
fn flatpak_command_lines() {
    assert_eq!(pag::flatpak::install_args("org.a.B", None), strings(&["install", "--noninteractive", "org.a.B"]));
    assert_eq!(
        pag::flatpak::install_args("org.a.B", Some("flathub")),
        strings(&["install", "--noninteractive", "flathub", "org.a.B"])
    );
    assert_eq!(pag::flatpak::uninstall_args("x"), strings(&["uninstall", "--noninteractive", "x"]));
    assert_eq!(
        pag::flatpak::search_args(&strings(&["office", "suite"])),
        strings(&["search", "--columns=name,application,version,branch,description", "office suite"])
    );
    assert_eq!(pag::flatpak::list_args(), strings(&["list", "--columns=name,application,version,branch,origin"]));
    assert_eq!(pag::flatpak::update_args(), strings(&["update", "--noninteractive"]));
    assert_eq!(pag::flatpak::remote_add_args("n", "u"), strings(&["remote-add", "--if-not-exists", "n", "u"]));
    assert_eq!(
        pag::flatpak::FlatpakError::InstallFailed("x".into()).message(),
        "Flatpak: nie udało się zainstalować x"
    );
    assert_eq!(pag::flatpak::FlatpakError::ListFailed.message(), "Flatpak: nie udało się pobrać listy");
}

#[test]
fn configuration_files() {
    assert_eq!(
        pag::config::config_search_paths("/mnt/"),
        strings(&["/mnt/etc/pag/config.toml", "/etc/pag/config.toml"])
    );
    let c = Config::for_root("/mnt");
    assert_eq!(c.general.root, "/mnt");
    assert_eq!(c.general.db_path, "/var/lib/pag/db.sqlite");
    let mut d = Config::for_root("/srv");
    d.apply_root("/");
    assert_eq!(d.general.root, "/srv");
    d.apply_root("/other");
    assert_eq!(d.general.root, "/other");
    assert!(pag::config::default_config_text("x = 1\n").starts_with("# PaganLinux Package Manager - Konfiguracja\n"));
    assert!(pag::config::default_config_text("x = 1\n").ends_with("\n\nx = 1\n"));
}

#[test]
fn package_format_messages() {
    assert_eq!(pag::package::PackageFormatError::BadMagic.message(), "Nieprawidłowy magic: to nie jest plik .pag");
}

#[test]
fn messages_in_every_supported_language() {
    let cases = [
        ("de", "Installiere {pkg}..."),
        ("fr", "Installation de {pkg}..."),
        ("es", "Instalando {pkg}..."),
        ("it", "Installazione di {pkg}..."),
        ("ru", "Установка {pkg}..."),
        ("cs", "Instalace {pkg}..."),
        ("ja", "{pkg} をインストールしています..."),
        ("zh", "正在安装 {pkg}..."),
        ("en", "Installing {pkg}..."),
    ];
    for (code, text) in cases {
        let i = I18n::new(code);
        assert_eq!(i.lang, code);
        assert_eq!(i.get("pag.installing"), Some(text));
        assert!(i.get("pag.welcome").unwrap().contains("PaganLinux"));
        assert!(i.get("pag.error").unwrap().contains("{msg}"));
    }
    let fr = I18n::new("fr");
    assert_ne!(fr.get("pag.installing"), Some("Installing {pkg}..."));
    let xx = I18n::new("xx");
    assert_eq!(xx.lang, "xx");
    assert_eq!(xx.get("pag.installing"), Some("Installing {pkg}..."));
}

#[test]
fn orphans_by_parsed_dependency_names() {
    let names = vec!["glibc".to_string(), "nginx".to_string(), "old-lib".to_string(), "zlib".to_string()];
    let reasons = vec![InstallReason::Dependency, InstallReason::Explicit, InstallReason::Dependency, InstallReason::Dependency];
    let deps = vec!["glibc>=2.39".to_string(), "zlib".to_string()];
    assert_eq!(pag::commands::orphans_of(&names, &reasons, &deps), vec!["old-lib".to_string()]);
    assert_eq!(pag::commands::orphans_of(&names, &reasons, &vec![]), vec!["glibc".to_string(), "old-lib".to_string(), "zlib".to_string()]);
}

#[test]
fn upgrade_candidates_pick_newer_offers() {
    let versions = vec!["1.0".to_string(), "2.0".to_string(), "3.0".to_string(), "1.0".to_string()];
    let offered = vec![Some("1.1".to_string()), Some("2.0".to_string()), None, Some("1:0.5".to_string())];
    assert_eq!(pag::commands::upgrade_candidates(&versions, &offered), vec![0, 3]);
}
