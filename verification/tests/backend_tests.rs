use pag::backend::config::{parse_i64, Config};
use pag::backend::middleware::{extract_token, require_admin, AccessError};
use pag::backend::models::{CreatePackageRequest, CreatePortRequest, CreateRepoRequest, WebhookPayload, WebhookRepo};
use pag::backend::services::{
    BuildService, PackageService, PagbuildError, PortService, RepoService,
};
use pag::backend::worker::{
    build_log, builds_url, final_status, job_dir, job_step, log_file, package_url, queued_indices,
    status_url, BuildJob, JobStep, PackageInfo, PackageReply,
};
use pag::cms::auth::HeaderText;

#[test]
fn settings_with_defaults() {
    let c = Config::from_settings(None, None, None, None, None, None, None);
    assert_eq!(c.database_url, "sqlite:data/pagancms.db?mode=rwc");
    assert_eq!(c.jwt_expiry_hours, 24);
    assert_eq!(c.server_addr, "0.0.0.0:3000");
    assert_eq!(c.gitea_token, "");
    let d = Config::from_settings(Some("db".into()), None, Some("48".into()), None, None, Some("t".into()), None);
    assert_eq!(d.database_url, "db");
    assert_eq!(d.jwt_expiry_hours, 48);
    assert_eq!(d.gitea_token, "t");
    let e = Config::from_settings(None, None, Some("two days".into()), None, None, None, None);
    assert_eq!(e.jwt_expiry_hours, 24);
}

#[test]
fn signed_numbers() {
    assert_eq!(parse_i64("-9223372036854775808"), Some(i64::MIN));
    assert_eq!(parse_i64("9223372036854775807"), Some(i64::MAX));
    assert_eq!(parse_i64("9223372036854775808"), None);
    assert_eq!(parse_i64("+5"), Some(5));
    assert_eq!(parse_i64("-"), None);
    assert_eq!(parse_i64(""), None);
    assert_eq!(parse_i64(" 5"), None);
}

#[test]
fn pagbuild_files() {
    let text = "# comment\npkgname=htop\npkgver=\"3.3.0\"\npkgdesc='Viewer'\n\narch=x86_64\npkgver=3.4\n";
    let info = PackageService::parse_pagbuild(text).unwrap();
    assert_eq!(info.name, "htop");
    assert_eq!(info.version, "3.4");
    assert_eq!(info.description.as_deref(), Some("Viewer"));
    assert_eq!(info.arch.as_deref(), Some("x86_64"));
    assert_eq!(info.release, None);
    let err = PackageService::parse_pagbuild("pkgname=htop\n").unwrap_err();
    assert_eq!(err, PagbuildError::MissingNameOrVersion);
    assert_eq!(err.message(), "PAGBUILD musi zawierać przynajmniej pkgname i pkgver");
    assert_eq!(PackageService::extract_var("pkgrel=\"\"", "pkgrel"), None);
    assert_eq!(PackageService::extract_var("pkgrel= 2", "pkgrel"), Some("2".to_string()));
}

#[test]
fn package_defaults_and_pages() {
    let req = CreatePackageRequest { name: "a".into(), version: "1".into(), release: None, description: None, arch: None };
    assert_eq!(PackageService::creation_defaults(&req), ("1".to_string(), "".to_string(), "x86_64".to_string()));
    assert_eq!(PackageService::page_window(None, None), (1, 20, 0));
    assert_eq!(PackageService::page_window(Some(3), Some(500)), (3, 100, 200));
    assert_eq!(PackageService::page_window(Some(-4), Some(10)), (1, 10, 0));
    assert_eq!(PackageService::page_range(45, 40, 20), (40, 45));
    assert_eq!(PackageService::page_range(45, 60, 20), (45, 45));
    assert_eq!(PackageService::page_range(45, 0, -1), (0, 45));
}

#[test]
fn build_service_rules() {
    assert_eq!(BuildService::job_id("1234"), "build-1234");
    assert_eq!(BuildService::arch_or_default(&None), "x86_64");
    assert_eq!(BuildService::stamps_for("running"), (true, false));
    assert_eq!(BuildService::stamps_for("failed"), (false, true));
    assert_eq!(BuildService::package_status_after("success"), "success");
    assert_eq!(BuildService::package_status_after("queued"), "building");
    let port = CreatePortRequest { name: "p".into(), category: Some("net".into()), description: None, version: None, pagbuild_path: "x".into() };
    assert_eq!(PortService::creation_defaults(&port), ("net".to_string(), "".to_string(), "".to_string()));
}

#[test]
fn forge_repositories() {
    let req = CreateRepoRequest { name: "htop".into(), description: None, owner: None };
    let owner = RepoService::owner_of(&req);
    assert_eq!(owner, "PaganLinux");
    assert_eq!(RepoService::full_name(&owner, "htop"), "PaganLinux/htop");
    assert_eq!(RepoService::gitea_create_url("https://g/api/v1", "PaganLinux"), "https://g/api/v1/orgs/PaganLinux/repos");
    assert_eq!(RepoService::gitea_create_url("https://g/api/v1", "ola"), "https://g/api/v1/user/repos");
    assert_eq!(RepoService::gitea_auth_header("tok"), "token tok");
}

#[test]
fn push_events() {
    let main = WebhookPayload {
        ref_name: Some("refs/heads/main".into()),
        after: None,
        repository: Some(WebhookRepo { full_name: Some("PaganLinux/htop".into()), clone_url: None }),
    };
    assert!(RepoService::push_triggers_build(&main));
    assert_eq!(RepoService::webhook_repo_name(&main), "PaganLinux/htop");
    let dev = WebhookPayload { ref_name: Some("refs/heads/dev".into()), after: None, repository: None };
    assert!(!RepoService::push_triggers_build(&dev));
    assert_eq!(RepoService::webhook_branch(&dev), "dev");
    assert_eq!(RepoService::webhook_repo_name(&dev), "unknown");
    let twice = WebhookPayload { ref_name: Some("refs/heads/refs/heads/main".into()), after: None, repository: None };
    assert_eq!(RepoService::webhook_branch(&twice), "main");
    let none = WebhookPayload { ref_name: None, after: None, repository: None };
    assert_eq!(RepoService::webhook_branch(&none), "");
}

#[test]
fn bearer_and_admin_checks() {
    assert_eq!(extract_token(&HeaderText::Text("Bearer jwt".into())), Some("jwt".to_string()));
    assert_eq!(extract_token(&HeaderText::Text("jwt".into())), None);
    assert_eq!(extract_token(&HeaderText::Unreadable), None);
    assert_eq!(require_admin(Some("admin")), Ok(()));
    assert_eq!(require_admin(Some("user")), Err(AccessError::Forbidden));
    assert_eq!(require_admin(None), Err(AccessError::Unauthorized));
    assert_eq!(AccessError::Forbidden.status_code(), 403);
}

#[test]
fn worker_rules() {
    assert_eq!(builds_url(), "http://localhost:3000/api/v1/builds");
    assert_eq!(package_url(-7), "http://localhost:3000/api/v1/packages/-7");
    assert_eq!(status_url(12), "http://localhost:3000/api/v1/builds/12/status");
    assert_eq!(job_dir("j1"), "/tmp/pagbuild-workspace/build-j1");
    assert_eq!(log_file("/d"), "/d/build.log");
    assert_eq!(final_status(true), "success");
    assert_eq!(job_step(PackageReply::Refused), JobStep::FailMissingPackage);
    assert_eq!(job_step(PackageReply::Unreachable), JobStep::Skip);
    let jobs = vec![
        BuildJob { id: 1, package_id: 1, job_id: "a".into(), status: "queued".into(), arch: "x86_64".into() },
        BuildJob { id: 2, package_id: 1, job_id: "b".into(), status: "running".into(), arch: "x86_64".into() },
        BuildJob { id: 3, package_id: 2, job_id: "c".into(), status: "queued".into(), arch: "x86_64".into() },
    ];
    assert_eq!(queued_indices(&jobs), vec![0, 2]);
    let pkg = PackageInfo { id: 1, name: "htop".into(), version: "3".into(), release: "1".into(), arch: "x86_64".into(), description: None };
    let log = build_log(&pkg, "x86_64", "/d", "2026-01-01 00:00:00");
    assert!(log.starts_with("=== PaganCMS Build Worker ===\nPackage: htop v3-1\nArchitecture: x86_64\n"));
    assert!(log.contains("Output: htop-3-1-x86_64.pag\n"));
}

#[test]
fn migration_script_statements() {
    let sql = "-- schema\nCREATE TABLE a (x INT);\n\n  CREATE TABLE b (y INT) ;\n-- end\n;  ";
    let statements = pag::backend::db::migration_statements(sql);
    // A piece that starts with a comment is skipped whole, statement and all.
    assert_eq!(statements, vec!["CREATE TABLE b (y INT)".to_string()]);
    let plain = pag::backend::db::migration_statements("CREATE TABLE a (x INT);\nCREATE TABLE c (z INT)");
    assert_eq!(plain, vec!["CREATE TABLE a (x INT)".to_string(), "CREATE TABLE c (z INT)".to_string()]);
}
