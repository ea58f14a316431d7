use vstd::prelude::*;

verus! {

/// Where a package submission stands.
#[derive(Debug, Clone, Copy, PartialEq, Eq, Structural)]
pub enum SubmissionStatus {
    Pending,
    UnderReview,
    Approved,
    Rejected,
    Building,
    Built,
    Failed,
    Published,
}

/// The words the server uses for submission states.
pub open spec fn submission_word(s: SubmissionStatus) -> Seq<char> {
    match s {
        SubmissionStatus::Pending => "pending"@,
        SubmissionStatus::UnderReview => "under_review"@,
        SubmissionStatus::Approved => "approved"@,
        SubmissionStatus::Rejected => "rejected"@,
        SubmissionStatus::Building => "building"@,
        SubmissionStatus::Built => "built"@,
        SubmissionStatus::Failed => "failed"@,
        SubmissionStatus::Published => "published"@,
    }
}

impl SubmissionStatus {
    /// The state's word, as it is shown and stored.
    pub fn as_str(&self) -> (r: &'static str)
        ensures
            r@ == submission_word(*self),
    {
        match self {
            SubmissionStatus::Pending => "pending",
            SubmissionStatus::UnderReview => "under_review",
            SubmissionStatus::Approved => "approved",
            SubmissionStatus::Rejected => "rejected",
            SubmissionStatus::Building => "building",
            SubmissionStatus::Built => "built",
            SubmissionStatus::Failed => "failed",
            SubmissionStatus::Published => "published",
        }
    }
}

/// Where a build job stands.
#[derive(Debug, Clone, Copy, PartialEq, Eq, Structural)]
pub enum BuildStatus {
    Queued,
    Running,
    Completed,
    Failed,
    Cancelled,
}

/// The words the server uses for build states.
pub open spec fn build_word(s: BuildStatus) -> Seq<char> {
    match s {
        BuildStatus::Queued => "queued"@,
        BuildStatus::Running => "running"@,
        BuildStatus::Completed => "completed"@,
        BuildStatus::Failed => "failed"@,
        BuildStatus::Cancelled => "cancelled"@,
    }
}

impl BuildStatus {
    /// The state's word, as it is shown and stored.
    pub fn as_str(&self) -> (r: &'static str)
        ensures
            r@ == build_word(*self),
    {
        match self {
            BuildStatus::Queued => "queued",
            BuildStatus::Running => "running",
            BuildStatus::Completed => "completed",
            BuildStatus::Failed => "failed",
            BuildStatus::Cancelled => "cancelled",
        }
    }
}

/// What a user of the review server may do.
#[derive(Debug, Clone, Copy, PartialEq, Eq, Structural)]
pub enum UserRole {
    Admin,
    Moderator,
    Viewer,
}

/// Counts shown on the dashboard.
#[derive(Debug, Clone)]
pub struct DashboardStats {
    pub total_packages: i64,
    pub pending_submissions: i64,
    pub active_builds: i64,
    pub completed_builds_today: i64,
    pub failed_builds_today: i64,
    pub published_packages: i64,
    pub disk_usage_mb: u64,
}

/// A login attempt.
#[derive(Debug)]
pub struct LoginRequest {
    pub username: String,
    pub password: String,
}

/// The answer to a successful login.
#[derive(Debug)]
pub struct LoginResponse {
    pub token: String,
    pub user: UserInfo,
}

/// What the server tells about a user.
#[derive(Debug)]
pub struct UserInfo {
    pub id: i64,
    pub username: String,
    pub role: UserRole,
}

/// A change to a submission: a new state, a new build script, or both.
#[derive(Debug)]
pub struct UpdateSubmissionRequest {
    pub status: Option<SubmissionStatus>,
    pub build_script: Option<String>,
}

/// A build requested by hand.
#[derive(Debug)]
pub struct CreateBuildRequest {
    pub package_name: String,
    pub package_version: String,
    pub build_script: String,
    pub submission_id: Option<i64>,
}

/// New values for settings.
#[derive(Debug)]
pub struct UpdateSettingsRequest {
    pub settings: Vec<SettingEntry>,
}

/// One setting.
#[derive(Debug)]
pub struct SettingEntry {
    pub key: String,
    pub value: String,
}

/// The pull-request event the forge sends.
#[derive(Debug)]
pub struct ForgejoWebhookPayload {
    pub action: Option<String>,
    pub number: Option<i64>,
    pub pull_request: Option<ForgejoPR>,
    pub repository: Option<ForgejoRepo>,
}

/// A pull request on the forge.
#[derive(Debug)]
pub struct ForgejoPR {
    pub id: i64,
    pub title: Option<String>,
    pub body: Option<String>,
    pub html_url: Option<String>,
    pub user: Option<ForgejoUser>,
    pub head: Option<ForgejoBranch>,
}

/// The branch a pull request comes from.
#[derive(Debug)]
pub struct ForgejoBranch {
    pub ref_name: String,
    pub sha: String,
}

/// A user of the forge.
#[derive(Debug)]
pub struct ForgejoUser {
    pub login: String,
    pub id: i64,
}

/// A repository of the forge.
#[derive(Debug)]
pub struct ForgejoRepo {
    pub full_name: String,
    pub name: String,
}

} // verus!
