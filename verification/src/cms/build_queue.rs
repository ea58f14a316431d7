use vstd::prelude::*;
use crate::text::chars_of;
use crate::text::string_from;
use crate::text::owned;
use crate::text::concat;
use crate::text::trim;
use crate::text::trim_matches;
use crate::text::has_prefix;
use crate::text::slice_chars;
use crate::text::lines_of;
use crate::text::lines;
use crate::text::string_views;
use crate::text::lemma_string_views_push;
use crate::text::trim_ws;
use crate::text::trim_char;
use crate::text::starts_with;
use crate::cms::models::SubmissionStatus;
use crate::cms::models::BuildStatus;

verus! {

/// A build waiting to run.
#[derive(Debug, Clone)]
pub struct BuildTask {
    pub job_uuid: String,
    pub submission_id: Option<i64>,
    pub package_name: String,
    pub package_version: String,
    pub build_script: String,
}

// ───────────────────────── build scripts ─────────────────────────

/// The value set by the first of `ls[i..]` that, trimmed, starts with
/// `key`: the rest of that line, trimmed, without surrounding `"`.
pub open spec fn script_value_from(ls: Seq<Seq<char>>, key: Seq<char>, i: int) -> Option<Seq<char>>
    decreases ls.len() - i,
{
    if i < 0 || i >= ls.len() {
        None
    } else {
        let l = trim_ws(ls[i]);
        if starts_with(l, key) {
            Some(trim_char(trim_ws(l.skip(key.len() as int)), '"'))
        } else {
            script_value_from(ls, key, i + 1)
        }
    }
}

/// The value a build script sets with `key`, or `fallback`.
pub open spec fn script_value(script: Seq<char>, key: Seq<char>, fallback: Seq<char>) -> Seq<char> {
    match script_value_from(lines(script), key, 0) {
        Some(v) => v,
        None => fallback,
    }
}

fn script_var(script: &str, key: &str, fallback: &str) -> (r: String)
    ensures
        r@ == script_value(script@, key@, fallback@),
{
    let ls = lines_of(&chars_of(script));
    let ghost lsv = lines(script@);
    let k = chars_of(key);
    let mut i: usize = 0;
    while i < ls.len()
        invariant
            i <= ls@.len(),
            lsv == lines(script@),
            ls@.len() == lsv.len(),
            forall|j: int| 0 <= j < ls@.len() ==> #[trigger] ls@[j]@ == lsv[j],
            k@ == key@,
            script_value_from(lsv, key@, 0) == script_value_from(lsv, key@, i as int),
        decreases ls@.len() - i,
    {
        let l = trim(&ls[i]);
        assert(l@ == trim_ws(lsv[i as int]));
        if has_prefix(&l, &k) {
            let rest = slice_chars(&l, k.len(), l.len());
            assert(rest@ =~= l@.skip(key@.len() as int));
            let v = trim_matches(&trim(&rest), '"');
            return string_from(&v);
        }
        i = i + 1;
    }
    owned(fallback)
}

/// The package name a build script sets (`name=...`), or `fallback`.
pub fn extract_package_name(script: &str, fallback: &str) -> (r: String)
    ensures
        r@ == script_value(script@, "name="@, fallback@),
{
    script_var(script, "name=", fallback)
}

/// The version a build script sets (`version=...`), or `fallback`.
pub fn extract_package_version(script: &str, fallback: &str) -> (r: String)
    ensures
        r@ == script_value(script@, "version="@, fallback@),
{
    script_var(script, "version=", fallback)
}

// ───────────────────────── paths ─────────────────────────

/// The directory a job builds in.
pub fn build_dir(job_uuid: &str) -> (r: String)
    ensures
        r@ == "/var/pagan-os/build-space/"@ + job_uuid@,
{
    string_from(&concat(&chars_of("/var/pagan-os/build-space/"), &chars_of(job_uuid)))
}

/// Where a job's build script is written.
pub fn script_path(build_dir: &str) -> (r: String)
    ensures
        r@ == build_dir@ + "/PaganBuild"@,
{
    string_from(&concat(&chars_of(build_dir), &chars_of("/PaganBuild")))
}

/// Where a successful build's package is published.
pub open spec fn artifact_of(name: Seq<char>, version: Seq<char>) -> Seq<char> {
    "/var/www/repos.paganlinux.eu/core/"@ + name + seq!['-'] + version + "-1-x86_64.pag"@
}

/// Decides `artifact_of`.
pub fn artifact_path(name: &str, version: &str) -> (r: String)
    ensures
        r@ == artifact_of(name@, version@),
{
    let dash = vec!['-'];
    assert(dash@ =~= seq!['-']);
    let a = concat(&chars_of("/var/www/repos.paganlinux.eu/core/"), &chars_of(name));
    let b = concat(&concat(&a, &dash), &chars_of(version));
    string_from(&concat(&b, &chars_of("-1-x86_64.pag")))
}

/// The programs tried, in order, to run a build.
pub fn pagbuild_candidates() -> (r: Vec<String>)
    ensures
        r@.len() == 3,
        r@[0]@ == "/usr/local/bin/pagbuild"@,
        r@[1]@ == "./target/release/pagbuild"@,
        r@[2]@ == "pagbuild"@,
{
    let mut v: Vec<String> = Vec::new();
    v.push(owned("/usr/local/bin/pagbuild"));
    v.push(owned("./target/release/pagbuild"));
    v.push(owned("pagbuild"));
    v
}

/// The exit code recorded for a finished build program: its own code, or -1
/// when it ended without one (killed by a signal).
pub fn exit_code_of(code: Option<i32>) -> (r: i32)
    ensures
        r == match code {
            Some(c) => c,
            None => -1i32,
        },
{
    match code {
        Some(c) => c,
        None => -1,
    }
}

/// The log messages, and the pause in milliseconds after each, of a build
/// simulated where no build program is installed.
pub open spec fn simulated_steps() -> Seq<(Seq<char>, u64)> {
    seq![
        ("→ Parsing PaganBuild script...\n"@, 400u64),
        ("→ Resolving dependencies...\n"@, 300u64),
        ("→ Downloading sources...\n"@, 600u64),
        ("→ Configuring build...\n"@, 200u64),
        ("→ Compiling (make -j$(nproc))...\n"@, 800u64),
        ("→ Packaging into .pag format...\n"@, 300u64),
        ("→ Signing with GPG key...\n"@, 200u64),
    ]
}

/// The steps of a simulated build, in order.
pub fn simulated_build_steps() -> (r: Vec<(String, u64)>)
    ensures
        r@.len() == simulated_steps().len(),
        forall|i: int| 0 <= i < r@.len() ==> (#[trigger] r@[i]).0@ == simulated_steps()[i].0 && r@[i].1
            == simulated_steps()[i].1,
{
    let mut v: Vec<(String, u64)> = Vec::new();
    v.push((owned("→ Parsing PaganBuild script...\n"), 400));
    v.push((owned("→ Resolving dependencies...\n"), 300));
    v.push((owned("→ Downloading sources...\n"), 600));
    v.push((owned("→ Configuring build...\n"), 200));
    v.push((owned("→ Compiling (make -j$(nproc))...\n"), 800));
    v.push((owned("→ Packaging into .pag format...\n"), 300));
    v.push((owned("→ Signing with GPG key...\n"), 200));
    v
}

/// The last log line of a simulated build, which always succeeds (exit 0).
pub fn simulated_build_done() -> (r: (String, i32))
    ensures
        r.0@ == "\n✅ Build completed successfully!\n"@,
        r.1 == 0,
{
    (owned("\n✅ Build completed successfully!\n"), 0)
}

/// The log lines of a build program's output: each line of standard
/// output, then each line of standard error marked `[stderr] `, each ended
/// by a newline.
pub open spec fn build_log_of(stdout: Seq<char>, stderr: Seq<char>) -> Seq<Seq<char>> {
    lines(stdout).map_values(|l: Seq<char>| l + seq!['\n']) + lines(stderr).map_values(
        |l: Seq<char>| "[stderr] "@ + l + seq!['\n'],
    )
}

/// Decides `build_log_of`.
pub fn build_log_lines(stdout: &str, stderr: &str) -> (r: Vec<String>)
    ensures
        string_views(r@) == build_log_of(stdout@, stderr@),
{
    let out = lines_of(&chars_of(stdout));
    let err = lines_of(&chars_of(stderr));
    let nl = vec!['\n'];
    assert(nl@ =~= seq!['\n']);
    let tag = chars_of("[stderr] ");
    let ghost a = lines(stdout@).map_values(|l: Seq<char>| l + seq!['\n']);
    let ghost b = lines(stderr@).map_values(|l: Seq<char>| "[stderr] "@ + l + seq!['\n']);
    let mut r: Vec<String> = Vec::new();
    let mut i: usize = 0;
    while i < out.len()
        invariant
            i <= out@.len(),
            out@.len() == lines(stdout@).len(),
            forall|j: int| 0 <= j < out@.len() ==> #[trigger] out@[j]@ == lines(stdout@)[j],
            nl@ == seq!['\n'],
            a == lines(stdout@).map_values(|l: Seq<char>| l + seq!['\n']),
            string_views(r@) == a.take(i as int),
        decreases out@.len() - i,
    {
        let ghost before = r@;
        let line = string_from(&concat(&out[i], &nl));
        r.push(line);
        proof {
            lemma_string_views_push(before, line);
            assert(a.take(i + 1) =~= a.take(i as int).push(a[i as int]));
        }
        i = i + 1;
    }
    assert(a.take(out@.len() as int) =~= a);
    let mut k: usize = 0;
    while k < err.len()
        invariant
            k <= err@.len(),
            err@.len() == lines(stderr@).len(),
            forall|j: int| 0 <= j < err@.len() ==> #[trigger] err@[j]@ == lines(stderr@)[j],
            nl@ == seq!['\n'],
            tag@ == "[stderr] "@,
            b == lines(stderr@).map_values(|l: Seq<char>| "[stderr] "@ + l + seq!['\n']),
            string_views(r@) == a + b.take(k as int),
        decreases err@.len() - k,
    {
        let ghost before = r@;
        let line = string_from(&concat(&concat(&tag, &err[k]), &nl));
        r.push(line);
        proof {
            lemma_string_views_push(before, line);
            assert(a + b.take(k + 1) =~= (a + b.take(k as int)).push(b[k as int]));
        }
        k = k + 1;
    }
    assert(b.take(err@.len() as int) =~= b);
    r
}

// ───────────────────────── finishing a build ─────────────────────────

/// How a finished build is recorded.
#[derive(Debug, Clone)]
pub struct BuildOutcome {
    /// The exit code stored with the job.
    pub exit_code: i32,
    /// The state the job ends in: completed on a clean exit, else failed.
    pub job_status: BuildStatus,
    /// The published package, when the build succeeded.
    pub artifact: Option<String>,
    /// The submission to move on, and the state it moves to.
    pub submission_update: Option<(i64, SubmissionStatus)>,
}

/// Records a build: `run` is the build program's exit code, or `Err` when
/// it could not be run. A clean exit publishes the package at
/// `artifact_of(name, version)`; anything else fails the build (with code
/// -1 when nothing ran).
pub fn build_outcome(run: Result<i32, ()>, submission_id: Option<i64>, name: &str, version: &str) -> (r:
    BuildOutcome)
    ensures
        r.exit_code == match run {
            Ok(c) => c,
            Err(_) => -1i32,
        },
        r.job_status == (if run == Ok::<i32, ()>(0) { BuildStatus::Completed } else { BuildStatus::Failed }),
        match r.artifact {
            Some(a) => run == Ok::<i32, ()>(0) && a@ == artifact_of(name@, version@),
            None => run != Ok::<i32, ()>(0),
        },
        r.submission_update == match submission_id {
            None => None,
            Some(id) => Some(
                (id, if run == Ok::<i32, ()>(0) {
                    SubmissionStatus::Published
                } else {
                    SubmissionStatus::Failed
                }),
            ),
        },
{
    let ok = match run {
        Ok(c) => c == 0,
        Err(_) => false,
    };
    let exit_code = match run {
        Ok(c) => c,
        Err(_) => -1,
    };
    let artifact = if ok {
        Some(artifact_path(name, version))
    } else {
        None
    };
    let status = if ok {
        SubmissionStatus::Published
    } else {
        SubmissionStatus::Failed
    };
    let submission_update = match submission_id {
        None => None,
        Some(id) => Some((id, status)),
    };
    let job_status = if ok {
        BuildStatus::Completed
    } else {
        BuildStatus::Failed
    };
    BuildOutcome { exit_code, job_status, artifact, submission_update }
}

} // verus!
