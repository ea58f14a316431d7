use vstd::prelude::*;

verus! {

/// A package of the site.
#[derive(Debug, Clone)]
pub struct Package {
    pub id: i64,
    pub name: String,
    pub version: String,
    pub release: String,
    pub description: Option<String>,
    pub arch: String,
    pub maintainer_id: Option<i64>,
    pub build_status: String,
    pub pkg_url: Option<String>,
    pub pkg_size: Option<i64>,
    pub checksum_sha: Option<String>,
    pub checksum_blake3: Option<String>,
    pub gpg_signature: Option<String>,
    pub created_at: String,
    pub updated_at: String,
}

/// A package to add.
#[derive(Debug, Clone)]
pub struct CreatePackageRequest {
    pub name: String,
    pub version: String,
    pub release: Option<String>,
    pub description: Option<String>,
    pub arch: Option<String>,
}

/// Changes to a package; absent fields stay as they are.
#[derive(Debug, Clone)]
pub struct UpdatePackageRequest {
    pub version: Option<String>,
    pub release: Option<String>,
    pub description: Option<String>,
    pub build_status: Option<String>,
    pub pkg_url: Option<String>,
    pub pkg_size: Option<i64>,
}

/// The query of the package listing.
#[derive(Debug, Clone)]
pub struct PackageFilter {
    pub arch: Option<String>,
    pub status: Option<String>,
    pub search: Option<String>,
    pub page: Option<i64>,
    pub limit: Option<i64>,
}

/// One page of the package listing.
#[derive(Debug, Clone)]
pub struct PackageListResponse {
    pub packages: Vec<Package>,
    pub total: i64,
    pub page: i64,
    pub total_pages: i64,
}

/// A package to add, possibly with its build description.
#[derive(Debug, Clone)]
pub struct UploadPackageRequest {
    pub name: String,
    pub version: String,
    pub release: Option<String>,
    pub description: Option<String>,
    pub arch: Option<String>,
    /// The text of a PAGBUILD file.
    pub pagbuild: Option<String>,
}

/// A port: the build description of a package.
#[derive(Debug, Clone)]
pub struct Port {
    pub id: i64,
    pub name: String,
    pub category: Option<String>,
    pub description: Option<String>,
    pub version: Option<String>,
    pub maintainer_id: Option<i64>,
    pub pagbuild_path: String,
    pub status: String,
    pub created_at: String,
    pub updated_at: String,
}

/// A port to add.
#[derive(Debug, Clone)]
pub struct CreatePortRequest {
    pub name: String,
    pub category: Option<String>,
    pub description: Option<String>,
    pub version: Option<String>,
    pub pagbuild_path: String,
}

/// Changes to a port; absent fields stay as they are.
#[derive(Debug, Clone)]
pub struct UpdatePortRequest {
    pub description: Option<String>,
    pub version: Option<String>,
    pub pagbuild_path: Option<String>,
    pub status: Option<String>,
}

/// A source repository on the forge.
#[derive(Debug, Clone)]
pub struct Repo {
    pub id: i64,
    pub name: String,
    pub full_name: String,
    pub owner: String,
    pub description: Option<String>,
    pub gitea_id: Option<i64>,
    pub clone_url: Option<String>,
    pub webhook_url: Option<String>,
    pub active: bool,
    pub created_at: String,
}

/// A repository to create on the forge.
#[derive(Debug, Clone)]
pub struct CreateRepoRequest {
    pub name: String,
    pub description: Option<String>,
    pub owner: Option<String>,
}

/// The push event the forge sends.
#[derive(Debug, Clone)]
pub struct WebhookPayload {
    /// The pushed reference (`ref` in the event).
    pub ref_name: Option<String>,
    pub after: Option<String>,
    pub repository: Option<WebhookRepo>,
}

/// The repository of a push event.
#[derive(Debug, Clone)]
pub struct WebhookRepo {
    pub full_name: Option<String>,
    pub clone_url: Option<String>,
}

/// A build of a package.
#[derive(Debug, Clone)]
pub struct Build {
    pub id: i64,
    pub package_id: i64,
    pub job_id: String,
    pub status: String,
    pub arch: String,
    pub log_path: Option<String>,
    pub started_at: Option<String>,
    pub finished_at: Option<String>,
    pub created_at: String,
}

/// A build to queue.
#[derive(Debug, Clone)]
pub struct CreateBuildRequest {
    pub package_id: i64,
    pub arch: Option<String>,
}

/// Counts about the site.
#[derive(Debug, Clone)]
pub struct StatsResponse {
    pub total_packages: i64,
    pub total_ports: i64,
    pub total_builds: i64,
    pub builds_today: i64,
    pub successful_builds: i64,
    pub failed_builds: i64,
}

} // verus!
