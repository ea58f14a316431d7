use vstd::prelude::*;
use crate::text::owned;

verus! {

/// The settings of the review server.
#[derive(Debug, Clone)]
pub struct CmsConfig {
    pub server: ServerConfig,
    pub database: DatabaseConfig,
    pub build: BuildConfig,
    pub forgejo: ForgejoConfig,
    pub auth: AuthConfig,
}

/// Where the server listens.
#[derive(Debug, Clone)]
pub struct ServerConfig {
    pub bind: String,
    pub port: u16,
    pub cors_origins: Vec<String>,
}

/// Where the database lives.
#[derive(Debug, Clone)]
pub struct DatabaseConfig {
    pub path: String,
}

/// How packages are built.
#[derive(Debug, Clone)]
pub struct BuildConfig {
    pub stage3_path: String,
    pub build_space: String,
    pub max_concurrent_builds: usize,
    pub build_timeout_seconds: u64,
}

/// The forge that community submissions come from.
#[derive(Debug, Clone)]
pub struct ForgejoConfig {
    pub base_url: String,
    pub api_token: String,
    pub community_repo: String,
    pub webhook_secret: String,
}

/// Login settings.
#[derive(Debug, Clone)]
pub struct AuthConfig {
    pub session_secret: String,
    pub admin_username: String,
    pub admin_password_hash: String,
    pub token_expiry_days: u32,
}

impl Default for CmsConfig {
    fn default() -> (r: Self)
        ensures
            r.server.bind@ == "0.0.0.0"@,
            r.server.port == 3005,
            r.server.cors_origins@.len() == 2,
            r.server.cors_origins@[0]@ == "http://localhost:4321"@,
            r.server.cors_origins@[1]@ == "https://cms.paganlinux.eu"@,
            r.database.path@ == "/opt/pagan-cms/cms.db"@,
            r.build.stage3_path@ == "/var/pagan-os/stage3-base"@,
            r.build.build_space@ == "/var/pagan-os/build-space"@,
            r.build.max_concurrent_builds == 2,
            r.build.build_timeout_seconds == 7200,
            r.forgejo.base_url@ == "https://git.paganlinux.eu"@,
            r.forgejo.api_token@ == Seq::<char>::empty(),
            r.forgejo.community_repo@ == "pagan-community"@,
            r.forgejo.webhook_secret@ == Seq::<char>::empty(),
            r.auth.session_secret@ == "change-me-in-production"@,
            r.auth.admin_username@ == "admin"@,
            r.auth.admin_password_hash@ == Seq::<char>::empty(),
            r.auth.token_expiry_days == 7,
    {
        let mut origins: Vec<String> = Vec::new();
        origins.push(owned("http://localhost:4321"));
        origins.push(owned("https://cms.paganlinux.eu"));
        CmsConfig {
            server: ServerConfig { bind: owned("0.0.0.0"), port: 3005, cors_origins: origins },
            database: DatabaseConfig { path: owned("/opt/pagan-cms/cms.db") },
            build: BuildConfig {
                stage3_path: owned("/var/pagan-os/stage3-base"),
                build_space: owned("/var/pagan-os/build-space"),
                max_concurrent_builds: 2,
                build_timeout_seconds: 7200,
            },
            forgejo: ForgejoConfig {
                base_url: owned("https://git.paganlinux.eu"),
                api_token: String::new(),
                community_repo: owned("pagan-community"),
                webhook_secret: String::new(),
            },
            auth: AuthConfig {
                session_secret: owned("change-me-in-production"),
                admin_username: owned("admin"),
                admin_password_hash: String::new(),
                token_expiry_days: 7,
            },
        }
    }
}

/// The settings a new database starts with, as (key, value) pairs.
pub fn default_settings() -> (r: Vec<(String, String)>)
    ensures
        r@.len() == 8,
        r@[0].0@ == "pagports_source"@ && r@[0].1@ == "github"@,
        r@[1].0@ == "official_repo_url"@ && r@[1].1@ == "https://github.com/PaganLinux/pagports"@,
        r@[2].0@ == "community_repo_url"@ && r@[2].1@ == "https://git.paganlinux.eu/pagan-community"@,
        r@[3].0@ == "auto_approve_trusted"@ && r@[3].1@ == "false"@,
        r@[4].0@ == "max_concurrent_builds"@ && r@[4].1@ == "2"@,
        r@[5].0@ == "build_timeout_minutes"@ && r@[5].1@ == "120"@,
        r@[6].0@ == "notify_on_build_complete"@ && r@[6].1@ == "true"@,
        r@[7].0@ == "retention_days_build_logs"@ && r@[7].1@ == "30"@,
{
    let mut v: Vec<(String, String)> = Vec::new();
    v.push((owned("pagports_source"), owned("github")));
    v.push((owned("official_repo_url"), owned("https://github.com/PaganLinux/pagports")));
    v.push((owned("community_repo_url"), owned("https://git.paganlinux.eu/pagan-community")));
    v.push((owned("auto_approve_trusted"), owned("false")));
    v.push((owned("max_concurrent_builds"), owned("2")));
    v.push((owned("build_timeout_minutes"), owned("120")));
    v.push((owned("notify_on_build_complete"), owned("true")));
    v.push((owned("retention_days_build_logs"), owned("30")));
    v
}

} // verus!
