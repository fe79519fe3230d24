//! Checking prerequisites: what the container CLI reports, what follows from it,
//! and what is printed about it.
use vstd::prelude::*;
use vstd::utf8::*;

use crate::paths::host;
use crate::paths::host::HostPath;
use crate::runtime::command;
use crate::runtime::command::Outcome;
use crate::text;

verus! {

// ---------------------------------------------------------------------------
// The container CLI
// ---------------------------------------------------------------------------

/// One record of `system version`.
#[derive(Debug)]
pub struct VersionInfo {
    pub version: String,
    pub build_type: Option<String>,
    pub commit: Option<String>,
    pub app_name: Option<String>,
}

/// The model of [`VersionInfo`].
pub ghost struct VersionView {
    pub version: Seq<char>,
    pub build_type: Option<Seq<char>>,
    pub commit: Option<Seq<char>>,
    pub app_name: Option<Seq<char>>,
}

impl VersionInfo {
    pub open spec fn view(&self) -> VersionView {
        VersionView {
            version: self.version@,
            build_type: text::opt(self.build_type),
            commit: text::opt(self.commit),
            app_name: text::opt(self.app_name),
        }
    }
}

/// The models of a list of records.
pub open spec fn version_views(v: Seq<VersionInfo>) -> Seq<VersionView> {
    v.map_values(|i: VersionInfo| i@)
}

/// The lines about the container CLI: where it was found, or that it was not.
pub fn cli_report(container_cli: &str, path: Option<&HostPath>) -> (r: Vec<String>)
    ensures
        text::texts(r@) == match path {
            Some(p) => seq!["container CLI:  "@ + text::lossy_text(p@) + " (found)"@],
            None => seq![
                "container CLI:  "@ + container_cli@ + " (NOT FOUND)"@,
                "  Install from: https://github.com/apple/container/releases"@,
            ],
        },
{
    let mut r: Vec<String> = Vec::new();
    match path {
        Some(p) => {
            let s = text::cat("container CLI:  ", p.lossy().as_str());
            let s = text::cat(s.as_str(), " (found)");
            text::push_text(&mut r, s.as_str());
            assert(text::texts(r@) =~= seq![s@]);
        },
        None => {
            let s = text::cat("container CLI:  ", container_cli);
            let s = text::cat(s.as_str(), " (NOT FOUND)");
            text::push_text(&mut r, s.as_str());
            text::push_text(
                &mut r,
                "  Install from: https://github.com/apple/container/releases",
            );
            assert(text::texts(r@) =~= seq![
                s@,
                "  Install from: https://github.com/apple/container/releases"@,
            ]);
        },
    }
    r
}

/// The record to show: the first of the CLI itself among the first `k`.
pub open spec fn cli_record(versions: Seq<VersionView>, k: nat) -> Option<int>
    decreases k,
{
    if k == 0 {
        None
    } else {
        match cli_record(versions, (k - 1) as nat) {
            Some(i) => Some(i),
            None => if versions[k - 1].app_name == Some("container"@) {
                Some(k - 1)
            } else {
                None
            },
        }
    }
}

/// An optional text, or a default.
pub open spec fn or_text(s: Option<Seq<char>>, d: Seq<char>) -> Seq<char> {
    match s {
        Some(t) => t,
        None => d,
    }
}

/// The version line for a record.
pub open spec fn record_line(v: VersionView) -> Seq<char> {
    "  version:      "@ + v.version + " ("@ + or_text(v.build_type, "release"@) + ", "@ + or_text(
        v.commit,
        ""@,
    ) + ")"@
}

/// The version line for records: that of the CLI itself, else of the first.
pub open spec fn versions_line(versions: Seq<VersionView>) -> Seq<char> {
    match cli_record(versions, versions.len()) {
        Some(i) => record_line(versions[i]),
        None => if versions.len() > 0 {
            record_line(versions[0])
        } else {
            "  version:      (empty version response)"@
        },
    }
}

/// The version line for output that is not what it should be.
pub open spec fn bad_version_line(e: Seq<char>, stdout: Seq<u8>) -> Seq<char> {
    "  version:      (JSON parse error: "@ + e + "; output: "@ + text::trimmed(
        text::lossy_text(stdout),
    ) + ")"@
}

fn text_or<'a>(s: &'a Option<String>, d: &'a str) -> (r: &'a str)
    ensures
        r@ == or_text(text::opt(*s), d@),
{
    match s {
        Some(t) => t.as_str(),
        None => d,
    }
}

fn show_record(v: &VersionInfo) -> (r: String)
    ensures
        r@ == record_line(v@),
{
    let s = text::cat("  version:      ", v.version.as_str());
    let s = text::cat(s.as_str(), " (");
    let s = text::cat(s.as_str(), text_or(&v.build_type, "release"));
    let s = text::cat(s.as_str(), ", ");
    let s = text::cat(s.as_str(), text_or(&v.commit, ""));
    text::cat(s.as_str(), ")")
}

/// The version line for records.
pub fn show_versions(versions: &Vec<VersionInfo>) -> (r: String)
    ensures
        r@ == versions_line(version_views(versions@)),
{
    let ghost all = version_views(versions@);
    let mut i: usize = 0;
    while i < versions.len()
        invariant
            all == version_views(versions@),
            i <= versions@.len(),
            cli_record(all, i as nat) is None,
        decreases versions@.len() - i,
    {
        assert(all[i as int] == versions@[i as int]@);
        let is_cli = match &versions[i].app_name {
            Some(name) => text::str_eq(name.as_str(), "container"),
            None => false,
        };
        if is_cli {
            proof {
                cli_record_stays(all, (i + 1) as nat, versions@.len());
            }
            return show_record(&versions[i]);
        }
        i = i + 1;
    }
    if versions.len() > 0 {
        assert(all[0] == versions@[0]@);
        show_record(&versions[0])
    } else {
        "  version:      (empty version response)".to_owned()
    }
}

proof fn cli_record_stays(versions: Seq<VersionView>, k: nat, n: nat)
    requires
        k <= n,
        cli_record(versions, k) is Some,
    ensures
        cli_record(versions, n) == cli_record(versions, k),
    decreases n,
{
    if n > k {
        cli_record_stays(versions, k, (n - 1) as nat);
    }
}

/// What came of running `system version`.
#[derive(Debug)]
pub enum VersionOutput {
    /// It could not be run, for this reason.
    NotRun(String),
    /// What it printed cannot be read, for this reason.
    Unreadable(String, Vec<u8>),
    /// It printed these records.
    Read(Vec<VersionInfo>),
}

/// The version line for what came of running `system version`.
pub fn check_cli(output: &VersionOutput) -> (r: String)
    ensures
        r@ == match *output {
            VersionOutput::Read(versions) => versions_line(version_views(versions@)),
            VersionOutput::Unreadable(e, stdout) => bad_version_line(e@, stdout@),
            VersionOutput::NotRun(e) => "  version:      (error running version command: "@ + e@
                + ")"@,
        },
{
    match output {
        VersionOutput::Read(versions) => show_versions(versions),
        VersionOutput::Unreadable(e, stdout) => {
            let raw = text::trim(text::from_utf8_lossy(stdout.as_slice()).as_str());
            let s = text::cat("  version:      (JSON parse error: ", e.as_str());
            let s = text::cat(s.as_str(), "; output: ");
            let s = text::cat(s.as_str(), raw.as_str());
            text::cat(s.as_str(), ")")
        },
        VersionOutput::NotRun(e) => {
            let s = text::cat("  version:      (error running version command: ", e.as_str());
            text::cat(s.as_str(), ")")
        },
    }
}

// ---------------------------------------------------------------------------
// The container system
// ---------------------------------------------------------------------------

/// What `system status` reports.
#[derive(Debug)]
pub struct SystemStatus {
    /// `"running"`, `"not running"` or `"unregistered"`.
    pub status: String,
    /// The directory that holds the kernels; empty when the service is not running.
    pub app_root: Option<String>,
}

/// What came of running `system status`.
#[derive(Debug)]
pub enum StatusOutput {
    /// It could not be run, for this reason.
    NotRun(String),
    /// What it printed cannot be read, for this reason; this it complained about.
    Unreadable(String, Vec<u8>),
    /// It printed this.
    Read(SystemStatus),
}

/// The line for status output that is not what it should be.
pub open spec fn bad_status_line(e: Seq<char>, stderr: Seq<u8>) -> Seq<char> {
    "  status:  (JSON parse error: "@ + e + "; stderr: "@ + text::trimmed(text::lossy_text(stderr))
        + ")"@
}

/// The status that `system status` printed, whatever its exit code; or the line
/// that says what is wrong with it.
pub fn fetch_system_status(output: StatusOutput) -> (r: Result<SystemStatus, String>)
    ensures
        match output {
            StatusOutput::Read(status) => r == Ok::<SystemStatus, String>(status),
            StatusOutput::Unreadable(e, stderr) => r matches Err(line) && line@ == bad_status_line(
                e@,
                stderr@,
            ),
            StatusOutput::NotRun(e) => r matches Err(line) && line@
                == "  status:  (error running status command: "@ + e@ + ")"@,
        },
{
    match output {
        StatusOutput::Read(status) => Ok(status),
        StatusOutput::Unreadable(e, stderr) => {
            let shown = text::trim(text::from_utf8_lossy(stderr.as_slice()).as_str());
            let s = text::cat("  status:  (JSON parse error: ", e.as_str());
            let s = text::cat(s.as_str(), "; stderr: ");
            let s = text::cat(s.as_str(), shown.as_str());
            Err(text::cat(s.as_str(), ")"))
        },
        StatusOutput::NotRun(e) => {
            let s = text::cat("  status:  (error running status command: ", e.as_str());
            Err(text::cat(s.as_str(), ")"))
        },
    }
}

/// The line about the service, and whether it runs already; if not it is to be
/// started.
pub fn service_state(status: &SystemStatus) -> (r: (String, bool))
    ensures
        r.1 == (status.status@ == "running"@),
        r.0@ == if r.1 {
            "  status:  running \u{2713}"@
        } else {
            "  status:  "@ + status.status@ + " \u{2014} starting (with kernel install)..."@
        },
{
    if text::str_eq(status.status.as_str(), "running") {
        ("  status:  running \u{2713}".to_owned(), true)
    } else {
        let s = text::cat("  status:  ", status.status.as_str());
        (text::cat(s.as_str(), " \u{2014} starting (with kernel install)..."), false)
    }
}

/// The line about starting the service, and whether it runs now.
pub fn ensure_system_running(container_cli: &str, outcome: &Outcome) -> (r: (String, bool))
    ensures
        r.1 == outcome.ok(),
        r.0@ == match outcome {
            Outcome::Exited(code) => if outcome.ok() {
                "  status:  started \u{2713}"@
            } else {
                "  status:  `"@ + container_cli@ + " system start` failed (exit code: "@
                    + command::debug_code(*code) + ")"@
            },
            Outcome::NotStarted(e) => "  status:  failed to start: "@ + e@,
        },
{
    match outcome {
        Outcome::Exited(code) => if outcome.success() {
            ("  status:  started \u{2713}".to_owned(), true)
        } else {
            let s = text::cat("  status:  `", container_cli);
            let s = text::cat(s.as_str(), " system start` failed (exit code: ");
            let s = text::cat(s.as_str(), command::code_text(*code).as_str());
            (text::cat(s.as_str(), ")"), false)
        },
        Outcome::NotStarted(e) => (text::cat("  status:  failed to start: ", e.as_str()), false),
    }
}

/// The directory that holds the kernels, if the status names the app root.
pub fn kernels_dir(status: &SystemStatus) -> (r: Option<HostPath>)
    ensures
        match text::opt(status.app_root) {
            Some(root) => if root.len() > 0 {
                r matches Some(p) && p@ == host::joined(
                    encode_utf8(root),
                    encode_utf8("kernels"@),
                )
            } else {
                r is None
            },
            None => r is None,
        },
{
    match &status.app_root {
        Some(root) => if root.as_str().is_empty() {
            None
        } else {
            Some(HostPath::from_text(root.as_str()).join_text("kernels"))
        },
        None => None,
    }
}

/// The line about the kernel, by whether the kernels directory holds anything; one
/// is to be installed if not.
pub fn kernel_state(present: bool) -> (r: String)
    ensures
        r@ == if present {
            "  kernel:  configured \u{2713}"@
        } else {
            "  kernel:  not configured \u{2014} installing recommended kernel..."@
        },
{
    if present {
        "  kernel:  configured \u{2713}".to_owned()
    } else {
        "  kernel:  not configured \u{2014} installing recommended kernel...".to_owned()
    }
}

/// The lines about installing a kernel.
pub fn ensure_kernel(container_cli: &str, outcome: &Outcome) -> (r: Vec<String>)
    ensures
        text::texts(r@) == match outcome {
            Outcome::Exited(code) => if outcome.ok() {
                seq!["  kernel:  installed \u{2713}"@]
            } else {
                seq![
                    "  kernel:  `"@ + container_cli@
                        + " system kernel set --recommended` failed (exit code: "@
                        + command::debug_code(*code) + ")"@,
                    "           Run it manually for details."@,
                ]
            },
            Outcome::NotStarted(e) => seq!["  kernel:  failed to run: "@ + e@],
        },
{
    let mut r: Vec<String> = Vec::new();
    match outcome {
        Outcome::Exited(code) => {
            if outcome.success() {
                text::push_text(&mut r, "  kernel:  installed \u{2713}");
                assert(text::texts(r@) =~= seq!["  kernel:  installed \u{2713}"@]);
            } else {
                let s = text::cat("  kernel:  `", container_cli);
                let s = text::cat(
                    s.as_str(),
                    " system kernel set --recommended` failed (exit code: ",
                );
                let s = text::cat(s.as_str(), command::code_text(*code).as_str());
                let s = text::cat(s.as_str(), ")");
                text::push_text(&mut r, s.as_str());
                text::push_text(&mut r, "           Run it manually for details.");
                assert(text::texts(r@) =~= seq![
                    s@,
                    "           Run it manually for details."@,
                ]);
            }
        },
        Outcome::NotStarted(e) => {
            let s = text::cat("  kernel:  failed to run: ", e.as_str());
            text::push_text(&mut r, s.as_str());
            assert(text::texts(r@) =~= seq![s@]);
        },
    }
    r
}

/// The lines about Rosetta, which is not installed: whether builds were told to do
/// without it, and whether the builder was reset.
pub open spec fn rosetta_lines(cli: Seq<char>, set: bool, reset: bool) -> Seq<Seq<char>> {
    (if set {
        seq!["  build:   Rosetta not installed \u{2014} set build.rosetta=false \u{2713}"@]
    } else {
        seq![
            "  build:   Rosetta not installed but could not set property"@,
            "           Run: "@ + cli + " system property set build.rosetta false"@,
        ]
    }) + (if reset {
        seq!["  build:   builder reset \u{2713}"@]
    } else {
        Seq::empty()
    })
}

/// The lines about Rosetta, given whether it is installed, whether builds were told
/// to do without it, and whether the builder was stopped and deleted. Nothing is
/// said where it is installed.
pub fn ensure_rosetta_disabled(
    container_cli: &str,
    installed: bool,
    property_set: bool,
    stopped: bool,
    deleted: bool,
) -> (r: Vec<String>)
    ensures
        text::texts(r@) == if installed {
            Seq::empty()
        } else {
            rosetta_lines(container_cli@, property_set, stopped || deleted)
        },
{
    let mut r: Vec<String> = Vec::new();
    if installed {
        assert(text::texts(r@) =~= Seq::empty());
        return r;
    }
    if property_set {
        text::push_text(
            &mut r,
            "  build:   Rosetta not installed \u{2014} set build.rosetta=false \u{2713}",
        );
    } else {
        text::push_text(&mut r, "  build:   Rosetta not installed but could not set property");
        let s = text::cat("           Run: ", container_cli);
        let s = text::cat(s.as_str(), " system property set build.rosetta false");
        text::push_text(&mut r, s.as_str());
    }
    if stopped || deleted {
        text::push_text(&mut r, "  build:   builder reset \u{2713}");
    }
    assert(text::texts(r@) =~= rosetta_lines(container_cli@, property_set, stopped || deleted));
    r
}

// ---------------------------------------------------------------------------
// The order of the checks
// ---------------------------------------------------------------------------

/// A check, or a repair.
#[derive(Clone, Copy, Debug, PartialEq, Eq, Structural)]
pub enum CheckStep {
    /// Look for the CLI.
    FindCli,
    /// Ask for the service's status.
    ReadStatus,
    /// Start the service.
    StartService,
    /// Look for a kernel.
    FindKernel,
    /// Install a kernel.
    InstallKernel,
    /// Look for Rosetta, and do without it where it is missing.
    CheckRosetta,
    /// Nothing is left to check.
    Finished,
}

/// What a check came to.
#[derive(Clone, Copy, Debug, PartialEq, Eq, Structural)]
pub enum CheckResult {
    /// All is well: found, running, started, installed.
    Good,
    /// It is not.
    Bad,
    /// It cannot be told.
    Unknown,
}

/// The check after `step`: without the CLI or a readable status nothing else makes
/// sense, and the kernel is looked at only where the service runs.
pub open spec fn check_after(step: CheckStep, result: CheckResult) -> CheckStep {
    match step {
        CheckStep::FindCli => if result == CheckResult::Good {
            CheckStep::ReadStatus
        } else {
            CheckStep::Finished
        },
        CheckStep::ReadStatus => match result {
            CheckResult::Good => CheckStep::FindKernel,
            CheckResult::Bad => CheckStep::StartService,
            CheckResult::Unknown => CheckStep::Finished,
        },
        CheckStep::StartService => if result == CheckResult::Good {
            CheckStep::FindKernel
        } else {
            CheckStep::CheckRosetta
        },
        CheckStep::FindKernel => if result == CheckResult::Good {
            CheckStep::CheckRosetta
        } else {
            CheckStep::InstallKernel
        },
        CheckStep::InstallKernel => CheckStep::CheckRosetta,
        CheckStep::CheckRosetta => CheckStep::Finished,
        CheckStep::Finished => CheckStep::Finished,
    }
}

/// The check after `step`, which came to `result`.
pub fn next_check(step: CheckStep, result: CheckResult) -> (r: CheckStep)
    ensures
        r == check_after(step, result),
{
    match step {
        CheckStep::FindCli => if result == CheckResult::Good {
            CheckStep::ReadStatus
        } else {
            CheckStep::Finished
        },
        CheckStep::ReadStatus => match result {
            CheckResult::Good => CheckStep::FindKernel,
            CheckResult::Bad => CheckStep::StartService,
            CheckResult::Unknown => CheckStep::Finished,
        },
        CheckStep::StartService => if result == CheckResult::Good {
            CheckStep::FindKernel
        } else {
            CheckStep::CheckRosetta
        },
        CheckStep::FindKernel => if result == CheckResult::Good {
            CheckStep::CheckRosetta
        } else {
            CheckStep::InstallKernel
        },
        CheckStep::InstallKernel => CheckStep::CheckRosetta,
        CheckStep::CheckRosetta => CheckStep::Finished,
        CheckStep::Finished => CheckStep::Finished,
    }
}

/// The checks come to an end: none is made twice.
pub proof fn checks_end(step: CheckStep, a: CheckResult, b: CheckResult, c: CheckResult, d:
    CheckResult, e: CheckResult, f: CheckResult)
    ensures
        ({
            let s = check_after(check_after(check_after(step, a), b), c);
            check_after(check_after(check_after(s, d), e), f) == CheckStep::Finished
        }),
{
}

proof fn cli_record_is_first(versions: Seq<VersionView>, k: nat)
    requires
        k <= versions.len(),
    ensures
        match cli_record(versions, k) {
            Some(i) => 0 <= i < k && versions[i].app_name == Some("container"@) && forall|j: int|
                0 <= j < i ==> (#[trigger] versions[j]).app_name != Some("container"@),
            None => forall|j: int|
                0 <= j < k ==> (#[trigger] versions[j]).app_name != Some("container"@),
        },
    decreases k,
{
    if k > 0 {
        cli_record_is_first(versions, (k - 1) as nat);
    }
}

/// The version shown is that of the CLI's own record, the first of them, wherever it
/// stands; where there is none, that of the first record. Its build and its commit are
/// shown with it, a release where no build is given.
pub proof fn the_version_of_the_cli_is_shown(versions: Seq<VersionView>, i: int)
    requires
        0 <= i < versions.len(),
        forall|j: int| 0 <= j < i ==> (#[trigger] versions[j]).app_name != Some("container"@),
        versions[i].app_name == Some("container"@) || (i == 0 && forall|j: int|
            0 <= j < versions.len() ==> (#[trigger] versions[j]).app_name != Some("container"@)),
    ensures
        versions_line(versions) == "  version:      "@ + versions[i].version + " ("@ + (
        match versions[i].build_type {
            Some(b) => b,
            None => "release"@,
        }) + ", "@ + (match versions[i].commit {
            Some(c) => c,
            None => ""@,
        }) + ")"@,
{
    cli_record_is_first(versions, versions.len());
    if versions[i].app_name == Some("container"@) {
        match cli_record(versions, versions.len()) {
            Some(k) => {
                if k < i {
                    assert(versions[k].app_name != Some("container"@));
                }
                if i < k {
                    assert(versions[i].app_name != Some("container"@));
                }
            },
            None => {},
        }
    }
}

/// The order of the checks: each that is well leads on to the next, what is not is
/// repaired where it can be, and without the CLI or its status nothing else is done.
pub proof fn checks_come_in_order(result: CheckResult)
    ensures
        check_after(CheckStep::FindCli, CheckResult::Good) == CheckStep::ReadStatus,
        result != CheckResult::Good ==> check_after(CheckStep::FindCli, result)
            == CheckStep::Finished,
        check_after(CheckStep::ReadStatus, CheckResult::Good) == CheckStep::FindKernel,
        check_after(CheckStep::ReadStatus, CheckResult::Bad) == CheckStep::StartService,
        check_after(CheckStep::ReadStatus, CheckResult::Unknown) == CheckStep::Finished,
        check_after(CheckStep::StartService, CheckResult::Good) == CheckStep::FindKernel,
        result != CheckResult::Good ==> check_after(CheckStep::StartService, result)
            == CheckStep::CheckRosetta,
        check_after(CheckStep::FindKernel, CheckResult::Good) == CheckStep::CheckRosetta,
        result != CheckResult::Good ==> check_after(CheckStep::FindKernel, result)
            == CheckStep::InstallKernel,
        check_after(CheckStep::InstallKernel, result) == CheckStep::CheckRosetta,
        check_after(CheckStep::CheckRosetta, result) == CheckStep::Finished,
{
}

} // verus!
