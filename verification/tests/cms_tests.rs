use pag::cms::build_queue::{exit_code_of, simulated_build_done, simulated_build_steps};
use pag::cms::auth::{
    extract_token, generate_session_token, hash_password, hash_result, session_account, session_user,
    verify_password, AuthError, AuthExtractor, AuthUser, HeaderText, PasswordError,
};
use pag::cms::build_queue::{
    artifact_path, build_dir, build_log_lines, build_outcome, extract_package_name,
    extract_package_version, pagbuild_candidates, script_path, BuildTask,
};
use pag::cms::config::CmsConfig;
use pag::cms::handlers::builds::ListQuery as BuildListQuery;
use pag::cms::models::{
    BuildStatus, ForgejoPR, ForgejoUser, ForgejoWebhookPayload, SubmissionStatus, UserRole,
};
use pag::cms::webhooks::{extract_build_script, first_line, parse_pr_title, webhook_action, WebhookAction};

fn text(s: &str) -> HeaderText {
    HeaderText::Text(s.to_string())
}

#[test]
fn state_words() {
    assert_eq!(SubmissionStatus::UnderReview.as_str(), "under_review");
    assert_eq!(SubmissionStatus::Published.as_str(), "published");
    assert_eq!(BuildStatus::Cancelled.as_str(), "cancelled");
    assert_eq!(BuildStatus::Queued.as_str(), "queued");
}

#[test]
fn default_server_settings() {
    let c = CmsConfig::default();
    assert_eq!(c.server.port, 3005);
    assert_eq!(c.server.cors_origins, vec!["http://localhost:4321".to_string(), "https://cms.paganlinux.eu".to_string()]);
    assert_eq!(c.build.max_concurrent_builds, 2);
    assert_eq!(c.auth.token_expiry_days, 7);
    assert_eq!(c.forgejo.community_repo, "pagan-community");
    assert!(c.auth.admin_password_hash.is_empty());
}

#[test]
fn password_hash_verifies() {
    let h = hash_password("hunter42").unwrap();
    assert!(h.starts_with("$argon2"));
    assert_eq!(verify_password("hunter42", &h), Ok(true));
    assert_eq!(verify_password("hunter43", &h), Ok(false));
}

#[test]
fn garbage_hash_is_refused() {
    match verify_password("x", "not a phc string") {
        Err(PasswordError::Parse(m)) => assert!(!m.is_empty()),
        other => panic!("unexpected {:?}", other),
    }
    assert_eq!(PasswordError::Parse("bad".into()).message(), "Parse: bad");
    assert_eq!(PasswordError::Hash("bad".into()).message(), "Hash: bad");
}

#[test]
fn session_tokens_are_hex() {
    let a = generate_session_token();
    let b = generate_session_token();
    assert_eq!(a.len(), 64);
    assert!(a.chars().all(|c| c.is_ascii_hexdigit() && !c.is_ascii_uppercase()));
    assert_ne!(a, b);
}

#[test]
fn token_from_headers() {
    assert_eq!(extract_token(&text("Bearer abc"), &HeaderText::Missing), Ok("abc".to_string()));
    assert_eq!(extract_token(&text("abc"), &text("pagan_cms_session=zzz")), Ok("abc".to_string()));
    assert_eq!(extract_token(&HeaderText::Unreadable, &text("pagan_cms_session=zzz")), Err(AuthError::InvalidToken));
    assert_eq!(
        extract_token(&HeaderText::Missing, &text("theme=dark; pagan_cms_session = t0k ; x=1")),
        Ok("t0k".to_string())
    );
    assert_eq!(extract_token(&HeaderText::Missing, &text("theme=dark")), Err(AuthError::NoToken));
    assert_eq!(extract_token(&HeaderText::Missing, &HeaderText::Unreadable), Err(AuthError::InvalidToken));
    assert_eq!(extract_token(&HeaderText::Missing, &HeaderText::Missing), Err(AuthError::NoToken));
}

#[test]
fn refusals() {
    assert_eq!(AuthError::ExpiredToken.status_code(), 401);
    assert_eq!(AuthError::ExpiredToken.message(), "Session expired");
    assert_eq!(AuthError::Internal.status_code(), 500);
    assert_eq!(AuthError::NoToken.message(), "Unauthorized");
    assert_eq!(session_user(Err(())), Err(AuthError::Internal));
    assert_eq!(session_user(Ok(None)), Err(AuthError::ExpiredToken));
    assert_eq!(session_user(Ok(Some(3))), Ok(3));
    let u = AuthUser { id: 3, username: "admin".into(), role: UserRole::Admin };
    let AuthExtractor(got) = session_account(Ok(Some(u))).unwrap();
    assert_eq!(got.username, "admin");
    assert!(matches!(session_account(Ok(None)), Err(AuthError::InvalidToken)));
}

#[test]
fn build_script_values() {
    let script = "# build\n  name=\"htop\"\nversion= 3.3.0 \nname=other\n";
    assert_eq!(extract_package_name(script, "fallback"), "htop");
    assert_eq!(extract_package_version(script, "0"), "3.3.0");
    assert_eq!(extract_package_version("nothing", "0.1"), "0.1");
}

#[test]
fn build_paths() {
    assert_eq!(build_dir("u-1"), "/var/pagan-os/build-space/u-1");
    assert_eq!(script_path("/b"), "/b/PaganBuild");
    assert_eq!(artifact_path("htop", "3.3.0"), "/var/www/repos.paganlinux.eu/core/htop-3.3.0-1-x86_64.pag");
    assert_eq!(pagbuild_candidates()[0], "/usr/local/bin/pagbuild");
}

#[test]
fn build_outcomes() {
    let ok = build_outcome(Ok(0), Some(5), "htop", "3");
    assert_eq!(ok.exit_code, 0);
    assert_eq!(ok.artifact.as_deref(), Some("/var/www/repos.paganlinux.eu/core/htop-3-1-x86_64.pag"));
    assert_eq!(ok.submission_update, Some((5, SubmissionStatus::Published)));
    assert_eq!(ok.job_status, BuildStatus::Completed);
    let failed = build_outcome(Ok(2), Some(5), "htop", "3");
    assert_eq!(failed.exit_code, 2);
    assert!(failed.artifact.is_none());
    assert_eq!(failed.submission_update, Some((5, SubmissionStatus::Failed)));
    assert_eq!(failed.job_status, BuildStatus::Failed);
    let crashed = build_outcome(Err(()), None, "htop", "3");
    assert_eq!(crashed.exit_code, -1);
    assert_eq!(crashed.submission_update, None);
}

#[test]
fn build_logs() {
    let lines = build_log_lines("a\r\nb\n", "oops");
    assert_eq!(lines, vec!["a\n".to_string(), "b\n".to_string(), "[stderr] oops\n".to_string()]);
    let t = BuildTask {
        job_uuid: "u".into(),
        submission_id: None,
        package_name: "p".into(),
        package_version: "1".into(),
        build_script: String::new(),
    };
    assert_eq!(t.clone().job_uuid, "u");
}

#[test]
fn pull_request_titles() {
    assert_eq!(
        parse_pr_title("htop: 3.3.0", "Process viewer\nmore"),
        ("htop".to_string(), "3.3.0".to_string(), "Process viewer".to_string())
    );
    assert_eq!(
        parse_pr_title("Add htop 3.3.0 extra", ""),
        ("htop".to_string(), "3.3.0".to_string(), "".to_string())
    );
    assert_eq!(
        parse_pr_title("add htop", "x"),
        ("htop".to_string(), "unknown".to_string(), "x".to_string())
    );
    assert_eq!(
        parse_pr_title("New package", ""),
        ("New package".to_string(), "unknown".to_string(), "".to_string())
    );
    assert_eq!(first_line(""), "");
}

#[test]
fn build_script_from_body() {
    let body = "Please add\n```\nname=htop\nsource=x\n```\nthanks";
    assert_eq!(extract_build_script(body), "name=htop\nsource=x");
    let no_vars = "```\necho hi\n```";
    assert_eq!(extract_build_script(no_vars), no_vars);
    assert_eq!(extract_build_script("plain"), "plain");
}

#[test]
fn webhook_events() {
    let pr = ForgejoPR {
        id: 9,
        title: Some("htop: 3.3.0".into()),
        body: None,
        html_url: Some("https://git/pr/9".into()),
        user: Some(ForgejoUser { login: "ola".into(), id: 1 }),
        head: None,
    };
    let closed = ForgejoWebhookPayload { action: Some("closed".into()), number: None, pull_request: None, repository: None };
    assert!(matches!(webhook_action(&closed), WebhookAction::Ignored));
    let empty = ForgejoWebhookPayload { action: Some("opened".into()), number: None, pull_request: None, repository: None };
    assert!(matches!(webhook_action(&empty), WebhookAction::NoPrData));
    let opened = ForgejoWebhookPayload { action: Some("opened".into()), number: Some(9), pull_request: Some(pr), repository: None };
    match webhook_action(&opened) {
        WebhookAction::Create(s) => {
            assert_eq!(s.forgejo_pr_id, 9);
            assert_eq!(s.package_name, "htop");
            assert_eq!(s.package_version, "3.3.0");
            assert_eq!(s.submitter, "ola");
            assert_eq!(s.description, "");
            assert_eq!(s.build_script, "");
            assert_eq!(s.forgejo_pr_url, "https://git/pr/9");
        }
        _ => panic!("expected a submission"),
    }
    let q = BuildListQuery { status: Some("queued".into()) };
    assert_eq!(q.status.as_deref(), Some("queued"));
}

#[test]
fn seeded_settings() {
    let s = pag::cms::config::default_settings();
    assert_eq!(s.len(), 8);
    assert_eq!(s[0], ("pagports_source".to_string(), "github".to_string()));
    assert_eq!(s[7], ("retention_days_build_logs".to_string(), "30".to_string()));
}

#[test]
fn test_hash_result_maps_outcome() {
    assert_eq!(hash_result(Ok("$argon2id$x".to_string())).unwrap(), "$argon2id$x");
    match hash_result(Err("salt failed".to_string())) {
        Err(PasswordError::Hash(m)) => assert_eq!(m, "salt failed"),
        _ => panic!("expected a hash error"),
    }
}

#[test]
fn simulated_build_and_exit_codes() {
    let steps = simulated_build_steps();
    assert_eq!(steps.len(), 7);
    assert_eq!(steps[0], ("→ Parsing PaganBuild script...\n".to_string(), 400));
    assert_eq!(steps[4].1, 800);
    assert_eq!(simulated_build_done(), ("\n✅ Build completed successfully!\n".to_string(), 0));
    assert_eq!(exit_code_of(Some(3)), 3);
    assert_eq!(exit_code_of(None), -1);
}
