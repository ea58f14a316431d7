use vstd::prelude::*;
use crate::text::chars_of;
use crate::text::string_from;
use crate::text::concat;
use crate::text::str_eq;
use crate::text::decimal;
use crate::text::decimal_chars;

verus! {

/// The API the worker polls.
pub const API_URL: &'static str = "http://localhost:3000/api/v1";

/// A build as the API lists it.
#[derive(Debug, Clone)]
pub struct BuildJob {
    pub id: i64,
    pub package_id: i64,
    pub job_id: String,
    pub status: String,
    pub arch: String,
}

/// A package as the API describes it.
#[derive(Debug, Clone)]
pub struct PackageInfo {
    pub id: i64,
    pub name: String,
    pub version: String,
    pub release: String,
    pub arch: String,
    pub description: Option<String>,
}

/// The indices `i < n` of the builds waiting in the queue, ascending.
pub open spec fn queued_upto(jobs: Seq<BuildJob>, n: int) -> Seq<int>
    decreases n,
{
    if n <= 0 {
        seq![]
    } else if jobs[n - 1].status@ == "queued"@ {
        queued_upto(jobs, n - 1).push(n - 1)
    } else {
        queued_upto(jobs, n - 1)
    }
}

/// The positions of the queued builds of a listing, in order.
pub fn queued_indices(jobs: &Vec<BuildJob>) -> (r: Vec<usize>)
    ensures
        r@.map_values(|i: usize| i as int) == queued_upto(jobs@, jobs@.len() as int),
{
    let mut r: Vec<usize> = Vec::new();
    let mut i: usize = 0;
    while i < jobs.len()
        invariant
            i <= jobs@.len(),
            r@.map_values(|k: usize| k as int) == queued_upto(jobs@, i as int),
        decreases jobs@.len() - i,
    {
        let ghost before = r@;
        if str_eq(jobs[i].status.as_str(), "queued") {
            r.push(i);
            assert(r@.map_values(|k: usize| k as int) =~= before.map_values(|k: usize| k as int).push(i as int));
        }
        i = i + 1;
    }
    r
}

/// A signed number in decimal.
pub open spec fn signed_decimal(x: int) -> Seq<char> {
    if x < 0 {
        seq!['-'] + decimal((-x) as nat)
    } else {
        decimal(x as nat)
    }
}

fn signed_decimal_chars(x: i64) -> (r: Vec<char>)
    ensures
        r@ == signed_decimal(x as int),
{
    if x < 0 {
        let m: u64 = if x == i64::MIN {
            9223372036854775808
        } else {
            (-x) as u64
        };
        let minus = vec!['-'];
        assert(minus@ =~= seq!['-']);
        concat(&minus, &decimal_chars(m))
    } else {
        decimal_chars(x as u64)
    }
}

/// Where the worker lists the builds.
pub fn builds_url() -> (r: String)
    ensures
        r@ == API_URL@ + "/builds"@,
{
    string_from(&concat(&chars_of(API_URL), &chars_of("/builds")))
}

/// Where the worker reads a package.
pub fn package_url(package_id: i64) -> (r: String)
    ensures
        r@ == API_URL@ + "/packages/"@ + signed_decimal(package_id as int),
{
    let a = concat(&chars_of(API_URL), &chars_of("/packages/"));
    string_from(&concat(&a, &signed_decimal_chars(package_id)))
}

/// Where the worker reports a build's state.
pub fn status_url(build_id: i64) -> (r: String)
    ensures
        r@ == API_URL@ + "/builds/"@ + signed_decimal(build_id as int) + "/status"@,
{
    let a = concat(&chars_of(API_URL), &chars_of("/builds/"));
    let b = concat(&a, &signed_decimal_chars(build_id));
    string_from(&concat(&b, &chars_of("/status")))
}

/// The directory a job is built in.
pub fn job_dir(job_id: &str) -> (r: String)
    ensures
        r@ == "/tmp/pagbuild-workspace/build-"@ + job_id@,
{
    string_from(&concat(&chars_of("/tmp/pagbuild-workspace/build-"), &chars_of(job_id)))
}

/// The log file of a job directory.
pub fn log_file(job_dir: &str) -> (r: String)
    ensures
        r@ == job_dir@ + "/build.log"@,
{
    string_from(&concat(&chars_of(job_dir), &chars_of("/build.log")))
}

/// How the API answered the request for a job's package.
#[derive(Debug, Clone, Copy, PartialEq, Eq, Structural)]
pub enum PackageReply {
    /// A success status: the package follows.
    Found,
    /// Another status.
    Refused,
    /// The request failed.
    Unreachable,
}

/// What the worker does with a job after asking for its package.
#[derive(Debug, Clone, Copy, PartialEq, Eq, Structural)]
pub enum JobStep {
    /// Build it.
    Build,
    /// Report it failed with "Package not found" and go on.
    FailMissingPackage,
    /// Leave it for the next round.
    Skip,
}

/// Decides the step for a job from the package reply.
pub fn job_step(reply: PackageReply) -> (r: JobStep)
    ensures
        r == match reply {
            PackageReply::Found => JobStep::Build,
            PackageReply::Refused => JobStep::FailMissingPackage,
            PackageReply::Unreachable => JobStep::Skip,
        },
{
    match reply {
        PackageReply::Found => JobStep::Build,
        PackageReply::Refused => JobStep::FailMissingPackage,
        PackageReply::Unreachable => JobStep::Skip,
    }
}

/// The state reported after a build ran.
pub fn final_status(succeeded: bool) -> (r: &'static str)
    ensures
        r@ == (if succeeded { "success"@ } else { "failed"@ }),
{
    if succeeded {
        "success"
    } else {
        "failed"
    }
}

/// The log a build writes; `started` is the time it began.
pub open spec fn build_log_of(pkg: PackageInfo, arch: Seq<char>, build_dir: Seq<char>, started: Seq<char>) -> Seq<char> {
    "=== PaganCMS Build Worker ===\nPackage: "@ + pkg.name@ + " v"@ + pkg.version@ + seq!['-']
        + pkg.release@ + "\nArchitecture: "@ + arch + "\nBuild dir: "@ + build_dir + "\nStarted: "@
        + started
        + "\n\n[1/3] Preparing build environment...\n[2/3] Downloading sources...\n[3/3] Building .pag package...\n\n✅ Build completed successfully\nOutput: "@
        + pkg.name@ + seq!['-'] + pkg.version@ + seq!['-'] + pkg.release@ + seq!['-'] + arch
        + ".pag\nSHA512: abc123def456...\nBLAKE3: 789ghi012jkl...\n"@
}

/// Writes `build_log_of`.
pub fn build_log(pkg: &PackageInfo, arch: &str, build_dir: &str, started: &str) -> (r: String)
    ensures
        r@ == build_log_of(*pkg, arch@, build_dir@, started@),
{
    let dash = vec!['-'];
    assert(dash@ =~= seq!['-']);
    let mut s = chars_of("=== PaganCMS Build Worker ===\nPackage: ");
    s = concat(&s, &chars_of(pkg.name.as_str()));
    s = concat(&s, &chars_of(" v"));
    s = concat(&s, &chars_of(pkg.version.as_str()));
    s = concat(&s, &dash);
    s = concat(&s, &chars_of(pkg.release.as_str()));
    s = concat(&s, &chars_of("\nArchitecture: "));
    s = concat(&s, &chars_of(arch));
    s = concat(&s, &chars_of("\nBuild dir: "));
    s = concat(&s, &chars_of(build_dir));
    s = concat(&s, &chars_of("\nStarted: "));
    s = concat(&s, &chars_of(started));
    s = concat(
        &s,
        &chars_of(
            "\n\n[1/3] Preparing build environment...\n[2/3] Downloading sources...\n[3/3] Building .pag package...\n\n✅ Build completed successfully\nOutput: ",
        ),
    );
    s = concat(&s, &chars_of(pkg.name.as_str()));
    s = concat(&s, &dash);
    s = concat(&s, &chars_of(pkg.version.as_str()));
    s = concat(&s, &dash);
    s = concat(&s, &chars_of(pkg.release.as_str()));
    s = concat(&s, &dash);
    s = concat(&s, &chars_of(arch));
    s = concat(&s, &chars_of(".pag\nSHA512: abc123def456...\nBLAKE3: 789ghi012jkl...\n"));
    string_from(&s)
}

} // verus!
