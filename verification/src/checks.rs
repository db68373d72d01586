//! What each check makes of what its probes found: a status, a message and
//! detail lines.

use crate::consistency::{InconsistencyView, VersionInconsistency, VersionReport, VersionReportView};
use crate::health::{GitStatus, HealthCheckResult, HealthCheckResultView, HealthCheckType, HealthStatus};
use crate::lines::{line_views, lines_of, split_lines, string_from_chars, trim, trimmed};
use crate::semantic_version::version_text;
use crate::text::{chars_contain, chars_of, decimal, has_substring, usize_to_string, views};
use vstd::prelude::*;
use vstd::string::*;

verus! {

/// What a probe of one repository found: its state, or why it could not
/// be read.
#[derive(Debug, PartialEq, Eq)]
pub struct RepoProbe {
    /// The repository, as the report names it.
    pub name: String,
    /// Where the repository lies.
    pub path: String,
    pub status: Result<GitStatus, String>,
}

/// How the run of a tool on one package ended.
#[derive(Debug, Clone, PartialEq, Eq)]
pub enum RunOutcome {
    /// The tool ran to its end.
    Finished { success: bool, stderr: String },
    /// The tool could not be started.
    NotStarted { error: String },
}

/// The run of a tool on one package.
#[derive(Debug, Clone, PartialEq, Eq)]
pub struct PackageRun {
    pub package: String,
    pub outcome: RunOutcome,
}

/// What a look at the specs of one package found.
#[derive(Debug, Clone, PartialEq, Eq)]
pub struct SpecProbe {
    pub package: String,
    /// Whether the package has a specs directory.
    pub has_specs: bool,
    /// The number of spec files in it.
    pub spec_files: usize,
}

/// What a [`GitStatus`] stands for.
pub struct GitStatusView {
    pub repo_path: Seq<char>,
    pub branch: Seq<char>,
    pub is_dirty: bool,
    pub ahead: nat,
    pub behind: nat,
    pub has_upstream: bool,
    pub dirty_files: Seq<Seq<char>>,
}

impl View for GitStatus {
    type V = GitStatusView;

    open spec fn view(&self) -> GitStatusView {
        GitStatusView {
            repo_path: self.repo_path@,
            branch: self.branch@,
            is_dirty: self.is_dirty,
            ahead: self.ahead as nat,
            behind: self.behind as nat,
            has_upstream: self.has_upstream,
            dirty_files: views(self.dirty_files@),
        }
    }
}

/// What a [`RepoProbe`] stands for.
pub struct RepoProbeView {
    pub name: Seq<char>,
    pub path: Seq<char>,
    pub status: Result<GitStatusView, Seq<char>>,
}

impl View for RepoProbe {
    type V = RepoProbeView;

    open spec fn view(&self) -> RepoProbeView {
        RepoProbeView {
            name: self.name@,
            path: self.path@,
            status: match self.status {
                Ok(status) => Ok(status@),
                Err(error) => Err(error@),
            },
        }
    }
}

/// What a [`RunOutcome`] stands for.
pub enum RunOutcomeView {
    Finished { success: bool, stderr: Seq<char> },
    NotStarted { error: Seq<char> },
}

impl View for RunOutcome {
    type V = RunOutcomeView;

    open spec fn view(&self) -> RunOutcomeView {
        match self {
            RunOutcome::Finished { success, stderr } => RunOutcomeView::Finished {
                success: *success,
                stderr: stderr@,
            },
            RunOutcome::NotStarted { error } => RunOutcomeView::NotStarted { error: error@ },
        }
    }
}

/// What a [`PackageRun`] stands for.
pub struct PackageRunView {
    pub package: Seq<char>,
    pub outcome: RunOutcomeView,
}

impl View for PackageRun {
    type V = PackageRunView;

    open spec fn view(&self) -> PackageRunView {
        PackageRunView { package: self.package@, outcome: self.outcome@ }
    }
}

/// What a [`SpecProbe`] stands for.
pub struct SpecProbeView {
    pub package: Seq<char>,
    pub has_specs: bool,
    pub spec_files: nat,
}

impl View for SpecProbe {
    type V = SpecProbeView;

    open spec fn view(&self) -> SpecProbeView {
        SpecProbeView {
            package: self.package@,
            has_specs: self.has_specs,
            spec_files: self.spec_files as nat,
        }
    }
}

/// The views of a sequence of repository probes.
pub open spec fn probe_views(probes: Seq<RepoProbe>) -> Seq<RepoProbeView> {
    probes.map_values(|p: RepoProbe| p@)
}

/// The views of a sequence of runs.
pub open spec fn run_views(runs: Seq<PackageRun>) -> Seq<PackageRunView> {
    runs.map_values(|r: PackageRun| r@)
}

/// The views of a sequence of spec probes.
pub open spec fn spec_probe_views(probes: Seq<SpecProbe>) -> Seq<SpecProbeView> {
    probes.map_values(|p: SpecProbe| p@)
}

/// The line that reports uncommitted changes.
pub open spec fn dirty_line(name: Seq<char>, files: nat, branch: Seq<char>) -> Seq<char> {
    name + ": "@ + decimal(files) + " dirty file(s) on branch "@ + branch
}

/// The lines that list the first `n` changed files.
pub open spec fn file_lines(files: Seq<Seq<char>>, n: nat) -> Seq<Seq<char>>
    decreases n,
{
    if n == 0 || n > files.len() {
        Seq::empty()
    } else {
        file_lines(files, (n - 1) as nat).push("  - "@ + files[n - 1])
    }
}

/// The line that reports a branch out of step with its upstream.
pub open spec fn sync_line(name: Seq<char>, ahead: nat, behind: nat, branch: Seq<char>) -> Seq<
    char,
> {
    name + ": "@ + decimal(ahead) + " ahead, "@ + decimal(behind) + " behind upstream on "@ + branch
}

/// The line that reports a branch without upstream.
pub open spec fn upstream_line(name: Seq<char>, branch: Seq<char>) -> Seq<char> {
    name + ": no upstream configured for "@ + branch
}

/// The line that reports a repository that could not be read.
pub open spec fn unreadable_line(path: Seq<char>, error: Seq<char>) -> Seq<char> {
    "Failed to check "@ + path + ": "@ + error
}

/// Whether the repository has uncommitted changes.
pub open spec fn is_dirty(probe: RepoProbeView) -> bool {
    probe.status matches Ok(status) && status.is_dirty
}

/// The detail lines of one repository: its uncommitted changes, with the
/// changed files when verbose.
pub open spec fn repo_details(probe: RepoProbeView, verbose: bool) -> Seq<Seq<char>> {
    match probe.status {
        Ok(status) => if status.is_dirty {
            seq![dirty_line(probe.name, status.dirty_files.len(), status.branch)] + (
            if verbose {
                file_lines(status.dirty_files, status.dirty_files.len())
            } else {
                Seq::empty()
            })
        } else {
            Seq::empty()
        },
        Err(_) => Seq::empty(),
    }
}

/// The warnings of one repository: a branch out of step with its upstream,
/// a branch without upstream, a repository that could not be read.
pub open spec fn repo_warnings(probe: RepoProbeView) -> Seq<Seq<char>> {
    match probe.status {
        Ok(status) => (if status.ahead > 0 || status.behind > 0 {
            seq![sync_line(probe.name, status.ahead, status.behind, status.branch)]
        } else {
            Seq::empty()
        }) + (if !status.has_upstream {
            seq![upstream_line(probe.name, status.branch)]
        } else {
            Seq::empty()
        }),
        Err(error) => seq![unreadable_line(probe.path, error)],
    }
}

/// The detail lines of the first `n` repositories.
pub open spec fn git_details(probes: Seq<RepoProbeView>, verbose: bool, n: nat) -> Seq<Seq<char>>
    decreases n,
{
    if n == 0 || n > probes.len() {
        Seq::empty()
    } else {
        git_details(probes, verbose, (n - 1) as nat) + repo_details(probes[n - 1], verbose)
    }
}

/// The warnings of the first `n` repositories.
pub open spec fn git_warnings(probes: Seq<RepoProbeView>, n: nat) -> Seq<Seq<char>>
    decreases n,
{
    if n == 0 || n > probes.len() {
        Seq::empty()
    } else {
        git_warnings(probes, (n - 1) as nat) + repo_warnings(probes[n - 1])
    }
}

/// Whether one of the first `n` repositories has uncommitted changes.
pub open spec fn any_dirty(probes: Seq<RepoProbeView>, n: nat) -> bool
    decreases n,
{
    if n == 0 || n > probes.len() {
        false
    } else {
        any_dirty(probes, (n - 1) as nat) || is_dirty(probes[n - 1])
    }
}

/// The result of the repository check. Uncommitted changes anywhere make
/// it fail; warnings alone make it warn.
pub open spec fn git_outcome(probes: Seq<RepoProbeView>, verbose: bool) -> HealthCheckResultView {
    let details = git_details(probes, verbose, probes.len());
    let warnings = git_warnings(probes, probes.len());
    let dirty = any_dirty(probes, probes.len());
    HealthCheckResultView {
        check_type: HealthCheckType::Git,
        status: if dirty {
            HealthStatus::Fail
        } else if warnings.len() > 0 {
            HealthStatus::Warn
        } else {
            HealthStatus::Pass
        },
        message: if dirty {
            "Found "@ + decimal(details.len()) + " repositories with uncommitted changes"@
        } else if warnings.len() > 0 {
            "All repositories clean, "@ + decimal(warnings.len()) + " warning(s)"@
        } else {
            "All "@ + decimal(probes.len()) + " repositories are clean and synced"@
        },
        details: details + warnings,
    }
}

/// The line that reports one inconsistent dependency.
pub open spec fn inconsistency_line(found: InconsistencyView) -> Seq<char> {
    found.package + " depends on "@ + found.dependency + " "@ + version_text(found.found)
        + " (expected: "@ + version_text(found.expected) + ")"@
}

/// The lines for the first `n` inconsistencies.
pub open spec fn inconsistency_lines(found: Seq<InconsistencyView>, n: nat) -> Seq<Seq<char>>
    decreases n,
{
    if n == 0 || n > found.len() {
        Seq::empty()
    } else {
        inconsistency_lines(found, (n - 1) as nat).push(inconsistency_line(found[n - 1]))
    }
}

/// The result of the version check on a report: drift or an inconsistent
/// dependency makes it fail.
pub open spec fn version_outcome(report: VersionReportView) -> HealthCheckResultView {
    let issues = report.drift_detected || report.inconsistencies.len() > 0;
    HealthCheckResultView {
        check_type: HealthCheckType::Version,
        status: if issues {
            HealthStatus::Fail
        } else {
            HealthStatus::Pass
        },
        message: if issues {
            "Version inconsistencies detected: "@ + decimal(report.issues.len()) + " issue(s), "@
                + decimal(report.inconsistencies.len()) + " dependency mismatch(es)"@
        } else {
            "All "@ + decimal(report.total_packages) + " packages have consistent versions"@
        },
        details: report.issues + inconsistency_lines(
            report.inconsistencies,
            report.inconsistencies.len(),
        ),
    }
}

/// The result of the version check where the versions could not be read.
pub open spec fn version_failure(error: Seq<char>) -> HealthCheckResultView {
    HealthCheckResultView {
        check_type: HealthCheckType::Version,
        status: HealthStatus::Fail,
        message: "Failed to check versions: "@ + error,
        details: Seq::empty(),
    }
}

/// Whether a line of test output tells of a failure.
pub open spec fn is_failure_line(line: Seq<char>) -> bool {
    has_substring(line, "test result:"@) || has_substring(line, "FAILED"@)
}

/// Whether a line of documentation output tells of a warning.
pub open spec fn is_warning_line(line: Seq<char>) -> bool {
    has_substring(line, "warning:"@) || has_substring(line, "missing documentation"@)
}

/// The failure lines among the first `n` lines, trimmed and indented.
pub open spec fn failure_lines(lines: Seq<Seq<char>>, n: nat) -> Seq<Seq<char>>
    decreases n,
{
    if n == 0 || n > lines.len() {
        Seq::empty()
    } else if is_failure_line(lines[n - 1]) {
        failure_lines(lines, (n - 1) as nat).push("  "@ + trimmed(lines[n - 1]))
    } else {
        failure_lines(lines, (n - 1) as nat)
    }
}

/// The number of warning lines among the first `n` lines.
pub open spec fn warning_count(lines: Seq<Seq<char>>, n: nat) -> nat
    decreases n,
{
    if n == 0 || n > lines.len() {
        0
    } else {
        warning_count(lines, (n - 1) as nat) + (if is_warning_line(lines[n - 1]) {
            1nat
        } else {
            0nat
        })
    }
}

/// Whether the run ended in success.
pub open spec fn succeeded(run: PackageRunView) -> bool {
    run.outcome matches RunOutcomeView::Finished { success, .. } && success
}

/// The number of successful runs among the first `n`.
pub open spec fn success_count(runs: Seq<PackageRunView>, n: nat) -> nat
    decreases n,
{
    if n == 0 || n > runs.len() {
        0
    } else {
        success_count(runs, (n - 1) as nat) + (if succeeded(runs[n - 1]) {
            1nat
        } else {
            0nat
        })
    }
}

/// The detail lines of one test run.
pub open spec fn test_run_details(run: PackageRunView) -> Seq<Seq<char>> {
    match run.outcome {
        RunOutcomeView::Finished { success, stderr } => if success {
            Seq::empty()
        } else {
            seq![run.package + ": tests failed"@] + failure_lines(
                lines_of(stderr),
                lines_of(stderr).len(),
            )
        },
        RunOutcomeView::NotStarted { error } => seq![
            run.package + ": failed to run tests: "@ + error,
        ],
    }
}

/// The detail lines of the first `n` test runs.
pub open spec fn test_details(runs: Seq<PackageRunView>, n: nat) -> Seq<Seq<char>>
    decreases n,
{
    if n == 0 || n > runs.len() {
        Seq::empty()
    } else {
        test_details(runs, (n - 1) as nat) + test_run_details(runs[n - 1])
    }
}

/// The result of the test check: one run that did not succeed makes it
/// fail.
pub open spec fn tests_outcome(runs: Seq<PackageRunView>) -> HealthCheckResultView {
    let passed = success_count(runs, runs.len());
    let failed = (runs.len() - passed) as nat;
    HealthCheckResultView {
        check_type: HealthCheckType::Tests,
        status: if failed > 0 {
            HealthStatus::Fail
        } else {
            HealthStatus::Pass
        },
        message: "Tests: "@ + decimal(passed) + " passed, "@ + decimal(failed) + " failed out of "@
            + decimal(runs.len()) + " packages"@,
        details: test_details(runs, runs.len()),
    }
}

/// The detail lines of one documentation run.
pub open spec fn doc_run_details(run: PackageRunView) -> Seq<Seq<char>> {
    match run.outcome {
        RunOutcomeView::Finished { success, stderr } => {
            let warnings = warning_count(lines_of(stderr), lines_of(stderr).len());
            if !success && warnings > 0 {
                seq![run.package + ": "@ + decimal(warnings) + " documentation warning(s)"@]
            } else {
                Seq::empty()
            }
        },
        RunOutcomeView::NotStarted { error } => seq![
            run.package + ": failed to check docs: "@ + error,
        ],
    }
}

/// The detail lines of the first `n` documentation runs.
pub open spec fn doc_details(runs: Seq<PackageRunView>, n: nat) -> Seq<Seq<char>>
    decreases n,
{
    if n == 0 || n > runs.len() {
        Seq::empty()
    } else {
        doc_details(runs, (n - 1) as nat) + doc_run_details(runs[n - 1])
    }
}

/// The result of the documentation check: one run that did not succeed
/// makes it warn.
pub open spec fn docs_outcome(runs: Seq<PackageRunView>) -> HealthCheckResultView {
    let passed = success_count(runs, runs.len());
    let warned = (runs.len() - passed) as nat;
    HealthCheckResultView {
        check_type: HealthCheckType::Docs,
        status: if warned > 0 {
            HealthStatus::Warn
        } else {
            HealthStatus::Pass
        },
        message: "Documentation: "@ + decimal(passed) + " clean, "@ + decimal(warned)
            + " with warnings out of "@ + decimal(runs.len()) + " packages"@,
        details: doc_details(runs, runs.len()),
    }
}

/// The detail lines of one package in the spec check.
pub open spec fn spec_probe_details(probe: SpecProbeView) -> Seq<Seq<char>> {
    if probe.has_specs {
        if probe.spec_files > 0 {
            seq![probe.package + ": "@ + decimal(probe.spec_files) + " spec file(s)"@]
        } else {
            Seq::empty()
        }
    } else {
        seq![probe.package + ": missing specs/ directory"@]
    }
}

/// The detail lines of the first `n` packages in the spec check.
pub open spec fn spec_details(probes: Seq<SpecProbeView>, n: nat) -> Seq<Seq<char>>
    decreases n,
{
    if n == 0 || n > probes.len() {
        Seq::empty()
    } else {
        spec_details(probes, (n - 1) as nat) + spec_probe_details(probes[n - 1])
    }
}

/// The number of packages with a specs directory among the first `n`.
pub open spec fn covered_count(probes: Seq<SpecProbeView>, n: nat) -> nat
    decreases n,
{
    if n == 0 || n > probes.len() {
        0
    } else {
        covered_count(probes, (n - 1) as nat) + (if probes[n - 1].has_specs {
            1nat
        } else {
            0nat
        })
    }
}

/// The result of the spec check: one package without a specs directory
/// makes it warn. `percentage` is the share of covered packages as the
/// message shows it.
pub open spec fn specs_outcome(probes: Seq<SpecProbeView>, percentage: Seq<char>) -> HealthCheckResultView {
    let covered = covered_count(probes, probes.len());
    HealthCheckResultView {
        check_type: HealthCheckType::Specs,
        status: if covered < probes.len() {
            HealthStatus::Warn
        } else {
            HealthStatus::Pass
        },
        message: "Spec coverage: "@ + percentage + "% ("@ + decimal(covered) + "/"@ + decimal(
            probes.len(),
        ) + " packages with specs/)"@,
        details: spec_details(probes, probes.len()),
    }
}

/// Appends one line.
fn push_line(out: &mut Vec<String>, line: String)
    ensures
        views(final(out)@) == views(old(out)@).push(line@),
{
    let ghost previous = out@;
    out.push(line);
    assert(views(out@) =~= views(previous).push(line@));
}

/// Appends the lines of `more`.
fn append_lines(out: &mut Vec<String>, more: Vec<String>)
    ensures
        views(final(out)@) == views(old(out)@) + views(more@),
{
    let ghost before = views(out@);
    let ghost added = views(more@);
    assert(added.take(0) == Seq::<Seq<char>>::empty());
    assert(before + Seq::<Seq<char>>::empty() == before);
    for line in it: more.into_iter()
        invariant
            it.seq() == more@,
            added == views(more@),
            views(out@) == before + added.take(it.index() as int),
    {
        let ghost i = it.index() as int;
        assert(added.take(i + 1) == added.take(i).push(line@));
        assert((before + added.take(i)).push(line@) == before + added.take(i).push(line@));
        push_line(out, line);
    }
    assert(added.take(more@.len() as int) == added);
}

/// Joins two texts.
fn concat2(a: &str, b: &str) -> (r: String)
    ensures
        r@ == a@ + b@,
{
    let mut out = String::from_str(a);
    out.append(b);
    out
}

/// Joins three texts.
fn concat3(a: &str, b: &str, c: &str) -> (r: String)
    ensures
        r@ == a@ + b@ + c@,
{
    let mut out = String::from_str(a);
    out.append(b);
    out.append(c);
    out
}

/// The detail lines of one repository.
fn write_repo_details(probe: &RepoProbe, verbose: bool) -> (r: Vec<String>)
    ensures
        views(r@) == repo_details(probe@, verbose),
{
    let mut out: Vec<String> = Vec::new();
    assert(views(out@) =~= Seq::<Seq<char>>::empty());
    match &probe.status {
        Ok(status) => {
            if status.is_dirty {
                let mut line = concat3(
                    probe.name.as_str(),
                    ": ",
                    usize_to_string(status.dirty_files.len()).as_str(),
                );
                line.append(" dirty file(s) on branch ");
                line.append(status.branch.as_str());
                push_line(&mut out, line);
                let ghost head = views(out@);
                assert(head =~= seq![
                    dirty_line(probe.name@, status.dirty_files@.len(), status.branch@),
                ]);
                if verbose {
                    let ghost files = views(status.dirty_files@);
                    let mut k: usize = 0;
                    assert(head + Seq::<Seq<char>>::empty() == head);
                    while k < status.dirty_files.len()
                        invariant
                            k <= status.dirty_files.len(),
                            files == views(status.dirty_files@),
                            views(out@) == head + file_lines(files, k as nat),
                        decreases status.dirty_files.len() - k,
                    {
                        let line = concat2("  - ", status.dirty_files[k].as_str());
                        assert(files[k as int] == status.dirty_files@[k as int]@);
                        assert(line@ =~= "  - "@ + files[k as int]);
                        let ghost listed = file_lines(files, k as nat);
                        assert((head + listed).push(line@) == head + listed.push(line@));
                        push_line(&mut out, line);
                        k += 1;
                    }
                } else {
                    assert(head + Seq::<Seq<char>>::empty() == head);
                }
            }
        },
        Err(_) => {},
    }
    out
}

/// The warnings of one repository.
fn write_repo_warnings(probe: &RepoProbe) -> (r: Vec<String>)
    ensures
        views(r@) == repo_warnings(probe@),
{
    let mut out: Vec<String> = Vec::new();
    assert(views(out@) =~= Seq::<Seq<char>>::empty());
    match &probe.status {
        Ok(status) => {
            if status.ahead > 0 || status.behind > 0 {
                let mut line = concat3(
                    probe.name.as_str(),
                    ": ",
                    usize_to_string(status.ahead).as_str(),
                );
                line.append(" ahead, ");
                line.append(usize_to_string(status.behind).as_str());
                line.append(" behind upstream on ");
                line.append(status.branch.as_str());
                push_line(&mut out, line);
            }
            let ghost first = views(out@);
            if !status.has_upstream {
                let line = concat3(
                    probe.name.as_str(),
                    ": no upstream configured for ",
                    status.branch.as_str(),
                );
                push_line(&mut out, line);
            }
            assert(views(out@) =~= repo_warnings(probe@));
        },
        Err(error) => {
            let mut line = concat3("Failed to check ", probe.path.as_str(), ": ");
            line.append(error.as_str());
            push_line(&mut out, line);
            assert(views(out@) =~= repo_warnings(probe@));
        },
    }
    out
}

/// The result of the repository check on what the probes found.
pub fn git_check(probes: &Vec<RepoProbe>, verbose: bool) -> (r: HealthCheckResult)
    ensures
        r@ == git_outcome(probe_views(probes@), verbose),
{
    let mut details: Vec<String> = Vec::new();
    let mut warnings: Vec<String> = Vec::new();
    let mut dirty = false;
    let mut i: usize = 0;
    assert(views(details@) =~= Seq::<Seq<char>>::empty());
    assert(views(warnings@) =~= Seq::<Seq<char>>::empty());
    let ghost all = probe_views(probes@);
    while i < probes.len()
        invariant
            i <= probes.len(),
            all == probe_views(probes@),
            views(details@) == git_details(all, verbose, i as nat),
            views(warnings@) == git_warnings(all, i as nat),
            dirty == any_dirty(all, i as nat),
        decreases probes.len() - i,
    {
        let probe = &probes[i];
        assert(all[i as int] == probe@);
        append_lines(&mut details, write_repo_details(probe, verbose));
        append_lines(&mut warnings, write_repo_warnings(probe));
        match &probe.status {
            Ok(status) => {
                if status.is_dirty {
                    dirty = true;
                }
            },
            Err(_) => {},
        }
        i += 1;
    }
    let status = if dirty {
        HealthStatus::Fail
    } else if warnings.len() > 0 {
        HealthStatus::Warn
    } else {
        HealthStatus::Pass
    };
    assert(views(details@).len() == details@.len());
    assert(views(warnings@).len() == warnings@.len());
    let message = if dirty {
        concat3(
            "Found ",
            usize_to_string(details.len()).as_str(),
            " repositories with uncommitted changes",
        )
    } else if warnings.len() > 0 {
        concat3("All repositories clean, ", usize_to_string(warnings.len()).as_str(), " warning(s)")
    } else {
        concat3(
            "All ",
            usize_to_string(probes.len()).as_str(),
            " repositories are clean and synced",
        )
    };
    append_lines(&mut details, warnings);
    HealthCheckResult { check_type: HealthCheckType::Git, status, message, details }
}

/// The line that reports one inconsistent dependency.
fn write_inconsistency(found: &VersionInconsistency) -> (r: String)
    ensures
        r@ == inconsistency_line(found@),
{
    let mut line = concat3(found.package.as_str(), " depends on ", found.dependency.as_str());
    line.append(" ");
    line.append(found.found.to_string().as_str());
    line.append(" (expected: ");
    line.append(found.expected.to_string().as_str());
    line.append(")");
    line
}

/// The result of the version check on a report.
pub fn version_check(report: &VersionReport) -> (r: HealthCheckResult)
    ensures
        r@ == version_outcome(report@),
{
    let issues = report.has_issues();
    assert(views(report.issues@).len() == report.issues@.len());
    assert(report@.inconsistencies.len() == report.inconsistencies@.len());
    let message = if issues {
        let mut text = concat3(
            "Version inconsistencies detected: ",
            usize_to_string(report.issues.len()).as_str(),
            " issue(s), ",
        );
        text.append(usize_to_string(report.inconsistencies.len()).as_str());
        text.append(" dependency mismatch(es)");
        text
    } else {
        concat3(
            "All ",
            usize_to_string(report.total_packages).as_str(),
            " packages have consistent versions",
        )
    };
    let mut details: Vec<String> = Vec::new();
    assert(views(details@) =~= Seq::<Seq<char>>::empty());
    append_lines(&mut details, report.issues.clone());
    let ghost head = views(details@);
    assert(head =~= report@.issues);
    let ghost found = report@.inconsistencies;
    let mut k: usize = 0;
    assert(head + Seq::<Seq<char>>::empty() == head);
    while k < report.inconsistencies.len()
        invariant
            k <= report.inconsistencies.len(),
            found == report@.inconsistencies,
            views(details@) == head + inconsistency_lines(found, k as nat),
        decreases report.inconsistencies.len() - k,
    {
        let line = write_inconsistency(&report.inconsistencies[k]);
        assert(found[k as int] == report.inconsistencies@[k as int]@);
        let ghost listed = inconsistency_lines(found, k as nat);
        assert((head + listed).push(line@) == head + listed.push(line@));
        push_line(&mut details, line);
        k += 1;
    }
    HealthCheckResult {
        check_type: HealthCheckType::Version,
        status: if issues {
            HealthStatus::Fail
        } else {
            HealthStatus::Pass
        },
        message,
        details,
    }
}

/// The result of the version check where the versions could not be read.
pub fn version_check_failed(error: &str) -> (r: HealthCheckResult)
    ensures
        r@ == version_failure(error@),
{
    let details: Vec<String> = Vec::new();
    assert(views(details@) =~= Seq::<Seq<char>>::empty());
    HealthCheckResult {
        check_type: HealthCheckType::Version,
        status: HealthStatus::Fail,
        message: concat2("Failed to check versions: ", error),
        details,
    }
}

/// Whether a line holds one of two marks.
fn line_has(line: &Vec<char>, first: &str, second: &str) -> (r: bool)
    ensures
        r == (has_substring(line@, first@) || has_substring(line@, second@)),
{
    let a = chars_of(first);
    if chars_contain(line, &a) {
        return true;
    }
    let b = chars_of(second);
    chars_contain(line, &b)
}

/// The failure lines of the output of a test run.
pub fn read_failure_lines(stderr: &str) -> (r: Vec<String>)
    ensures
        views(r@) == failure_lines(lines_of(stderr@), lines_of(stderr@).len()),
{
    let chars = chars_of(stderr);
    let lines = split_lines(&chars);
    let ghost all = lines_of(stderr@);
    let mut out: Vec<String> = Vec::new();
    assert(views(out@) =~= Seq::<Seq<char>>::empty());
    assert(all.len() == lines@.len());
    let mut i: usize = 0;
    while i < lines.len()
        invariant
            i <= lines.len(),
            all == line_views(lines@),
            all.len() == lines@.len(),
            views(out@) == failure_lines(all, i as nat),
        decreases lines.len() - i,
    {
        assert(all[i as int] == lines@[i as int]@);
        if line_has(&lines[i], "test result:", "FAILED") {
            let kept = trim(&lines[i]);
            let line = concat2("  ", string_from_chars(&kept).as_str());
            assert(line@ =~= "  "@ + trimmed(all[i as int]));
            push_line(&mut out, line);
        }
        i += 1;
    }
    out
}

/// The number of warning lines in the output of a documentation run.
pub fn count_warning_lines(stderr: &str) -> (r: usize)
    ensures
        r == warning_count(lines_of(stderr@), lines_of(stderr@).len()),
{
    let chars = chars_of(stderr);
    let lines = split_lines(&chars);
    let ghost all = lines_of(stderr@);
    assert(all.len() == lines@.len());
    let mut count: usize = 0;
    let mut i: usize = 0;
    while i < lines.len()
        invariant
            i <= lines.len(),
            count <= i,
            all == line_views(lines@),
            all.len() == lines@.len(),
            count == warning_count(all, i as nat),
        decreases lines.len() - i,
    {
        assert(all[i as int] == lines@[i as int]@);
        if line_has(&lines[i], "warning:", "missing documentation") {
            count += 1;
        }
        i += 1;
    }
    count
}

/// The detail lines of one test run.
fn write_test_run(run: &PackageRun) -> (r: Vec<String>)
    ensures
        views(r@) == test_run_details(run@),
{
    let mut out: Vec<String> = Vec::new();
    assert(views(out@) =~= Seq::<Seq<char>>::empty());
    match &run.outcome {
        RunOutcome::Finished { success, stderr } => {
            if !*success {
                push_line(&mut out, concat2(run.package.as_str(), ": tests failed"));
                assert(views(out@) =~= seq![run.package@ + ": tests failed"@]);
                append_lines(&mut out, read_failure_lines(stderr.as_str()));
            }
        },
        RunOutcome::NotStarted { error } => {
            push_line(
                &mut out,
                concat3(run.package.as_str(), ": failed to run tests: ", error.as_str()),
            );
            assert(views(out@) =~= test_run_details(run@));
        },
    }
    out
}

/// The detail lines of one documentation run.
fn write_doc_run(run: &PackageRun) -> (r: Vec<String>)
    ensures
        views(r@) == doc_run_details(run@),
{
    let mut out: Vec<String> = Vec::new();
    assert(views(out@) =~= Seq::<Seq<char>>::empty());
    match &run.outcome {
        RunOutcome::Finished { success, stderr } => {
            if !*success {
                let warnings = count_warning_lines(stderr.as_str());
                if warnings > 0 {
                    let mut line = concat3(
                        run.package.as_str(),
                        ": ",
                        usize_to_string(warnings).as_str(),
                    );
                    line.append(" documentation warning(s)");
                    push_line(&mut out, line);
                    assert(views(out@) =~= doc_run_details(run@));
                }
            }
        },
        RunOutcome::NotStarted { error } => {
            push_line(
                &mut out,
                concat3(run.package.as_str(), ": failed to check docs: ", error.as_str()),
            );
            assert(views(out@) =~= doc_run_details(run@));
        },
    }
    out
}

/// Whether the run ended in success.
fn has_succeeded(run: &PackageRun) -> (r: bool)
    ensures
        r == succeeded(run@),
{
    match &run.outcome {
        RunOutcome::Finished { success, .. } => *success,
        RunOutcome::NotStarted { .. } => false,
    }
}

/// The three counts of a message, between its fixed parts.
fn count_message(head: &str, first: usize, middle: &str, second: usize, tail: &str, third: usize, end: &str) -> (r:
    String)
    ensures
        r@ == head@ + decimal(first as nat) + middle@ + decimal(second as nat) + tail@ + decimal(
            third as nat,
        ) + end@,
{
    let mut out = concat3(head, usize_to_string(first).as_str(), middle);
    out.append(usize_to_string(second).as_str());
    out.append(tail);
    out.append(usize_to_string(third).as_str());
    out.append(end);
    out
}

/// The result of the test check on the runs of the test tool.
pub fn tests_check(runs: &Vec<PackageRun>) -> (r: HealthCheckResult)
    ensures
        r@ == tests_outcome(run_views(runs@)),
{
    let mut details: Vec<String> = Vec::new();
    let mut passed: usize = 0;
    let mut i: usize = 0;
    let ghost all = run_views(runs@);
    assert(views(details@) =~= Seq::<Seq<char>>::empty());
    while i < runs.len()
        invariant
            i <= runs.len(),
            passed <= i,
            all == run_views(runs@),
            passed == success_count(all, i as nat),
            views(details@) == test_details(all, i as nat),
        decreases runs.len() - i,
    {
        assert(all[i as int] == runs@[i as int]@);
        if has_succeeded(&runs[i]) {
            passed += 1;
        }
        append_lines(&mut details, write_test_run(&runs[i]));
        i += 1;
    }
    let failed = runs.len() - passed;
    HealthCheckResult {
        check_type: HealthCheckType::Tests,
        status: if failed > 0 {
            HealthStatus::Fail
        } else {
            HealthStatus::Pass
        },
        message: count_message(
            "Tests: ",
            passed,
            " passed, ",
            failed,
            " failed out of ",
            runs.len(),
            " packages",
        ),
        details,
    }
}

/// The result of the documentation check on the runs of the documentation
/// tool.
pub fn docs_check(runs: &Vec<PackageRun>) -> (r: HealthCheckResult)
    ensures
        r@ == docs_outcome(run_views(runs@)),
{
    let mut details: Vec<String> = Vec::new();
    let mut passed: usize = 0;
    let mut i: usize = 0;
    let ghost all = run_views(runs@);
    assert(views(details@) =~= Seq::<Seq<char>>::empty());
    while i < runs.len()
        invariant
            i <= runs.len(),
            passed <= i,
            all == run_views(runs@),
            passed == success_count(all, i as nat),
            views(details@) == doc_details(all, i as nat),
        decreases runs.len() - i,
    {
        assert(all[i as int] == runs@[i as int]@);
        if has_succeeded(&runs[i]) {
            passed += 1;
        }
        append_lines(&mut details, write_doc_run(&runs[i]));
        i += 1;
    }
    let warned = runs.len() - passed;
    HealthCheckResult {
        check_type: HealthCheckType::Docs,
        status: if warned > 0 {
            HealthStatus::Warn
        } else {
            HealthStatus::Pass
        },
        message: count_message(
            "Documentation: ",
            passed,
            " clean, ",
            warned,
            " with warnings out of ",
            runs.len(),
            " packages",
        ),
        details,
    }
}

/// The detail lines of one package in the spec check.
fn write_spec_probe(probe: &SpecProbe) -> (r: Vec<String>)
    ensures
        views(r@) == spec_probe_details(probe@),
{
    let mut out: Vec<String> = Vec::new();
    assert(views(out@) =~= Seq::<Seq<char>>::empty());
    if probe.has_specs {
        if probe.spec_files > 0 {
            let mut line = concat3(
                probe.package.as_str(),
                ": ",
                usize_to_string(probe.spec_files).as_str(),
            );
            line.append(" spec file(s)");
            push_line(&mut out, line);
            assert(views(out@) =~= spec_probe_details(probe@));
        }
    } else {
        push_line(&mut out, concat2(probe.package.as_str(), ": missing specs/ directory"));
        assert(views(out@) =~= spec_probe_details(probe@));
    }
    out
}

/// The result of the spec check on what a look at each package found.
/// `percentage` is the share of covered packages as the message shows it.
pub fn specs_check(probes: &Vec<SpecProbe>, percentage: &str) -> (r: HealthCheckResult)
    ensures
        r@ == specs_outcome(spec_probe_views(probes@), percentage@),
{
    let mut details: Vec<String> = Vec::new();
    let mut covered: usize = 0;
    let mut i: usize = 0;
    let ghost all = spec_probe_views(probes@);
    assert(views(details@) =~= Seq::<Seq<char>>::empty());
    while i < probes.len()
        invariant
            i <= probes.len(),
            covered <= i,
            all == spec_probe_views(probes@),
            covered == covered_count(all, i as nat),
            views(details@) == spec_details(all, i as nat),
        decreases probes.len() - i,
    {
        assert(all[i as int] == probes@[i as int]@);
        if probes[i].has_specs {
            covered += 1;
        }
        append_lines(&mut details, write_spec_probe(&probes[i]));
        i += 1;
    }
    let mut message = concat3("Spec coverage: ", percentage, "% (");
    message.append(usize_to_string(covered).as_str());
    message.append("/");
    message.append(usize_to_string(probes.len()).as_str());
    message.append(" packages with specs/)");
    HealthCheckResult {
        check_type: HealthCheckType::Specs,
        status: if covered < probes.len() {
            HealthStatus::Warn
        } else {
            HealthStatus::Pass
        },
        message,
        details,
    }
}

} // verus!
