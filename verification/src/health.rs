//! The health report of a workspace: the results of independent checks,
//! folded into one ranked status.

use crate::text::{str_eq, views};
use vstd::prelude::*;
use vstd::string::*;

verus! {

/// The checks that can be run.
#[derive(Debug, Clone, Copy, PartialEq, Eq, Hash, Structural)]
pub enum HealthCheckType {
    Git,
    Version,
    Tests,
    Docs,
    Specs,
}

/// The outcome of a check, in rising severity.
#[derive(Debug, Clone, Copy, PartialEq, Eq, Structural)]
pub enum HealthStatus {
    Pass,
    Warn,
    Fail,
}

/// The result of one check.
#[derive(Debug, Clone, PartialEq, Eq)]
pub struct HealthCheckResult {
    pub check_type: HealthCheckType,
    pub status: HealthStatus,
    pub message: String,
    pub details: Vec<String>,
}

/// What a [`HealthCheckResult`] stands for.
pub struct HealthCheckResultView {
    pub check_type: HealthCheckType,
    pub status: HealthStatus,
    pub message: Seq<char>,
    pub details: Seq<Seq<char>>,
}

impl View for HealthCheckResult {
    type V = HealthCheckResultView;

    open spec fn view(&self) -> HealthCheckResultView {
        HealthCheckResultView {
            check_type: self.check_type,
            status: self.status,
            message: self.message@,
            details: views(self.details@),
        }
    }
}

/// The state of one repository, as a probe of it found it.
#[derive(Debug, Clone, PartialEq, Eq)]
pub struct GitStatus {
    pub repo_path: String,
    pub branch: String,
    pub is_dirty: bool,
    pub ahead: usize,
    pub behind: usize,
    pub has_upstream: bool,
    pub dirty_files: Vec<String>,
}

/// The health of a workspace at one moment.
#[derive(Debug, Clone, PartialEq, Eq)]
pub struct HealthReport {
    pub timestamp: String,
    pub workspace_root: String,
    pub checks: Vec<HealthCheckResult>,
    pub overall_status: HealthStatus,
}

/// What a [`HealthReport`] stands for.
pub struct HealthReportView {
    pub timestamp: Seq<char>,
    pub workspace_root: Seq<char>,
    pub checks: Seq<HealthCheckResultView>,
    pub overall_status: HealthStatus,
}

/// The views of a sequence of results.
pub open spec fn result_views(results: Seq<HealthCheckResult>) -> Seq<HealthCheckResultView> {
    results.map_values(|r: HealthCheckResult| r@)
}

impl View for HealthReport {
    type V = HealthReportView;

    open spec fn view(&self) -> HealthReportView {
        HealthReportView {
            timestamp: self.timestamp@,
            workspace_root: self.workspace_root@,
            checks: result_views(self.checks@),
            overall_status: self.overall_status,
        }
    }
}

/// Collects the results of the checks of a workspace.
#[derive(Debug)]
pub struct HealthChecker {
    pub workspace_root: String,
}

/// What `str::to_lowercase` makes of a text.
pub uninterp spec fn lowercased(text: Seq<char>) -> Seq<char>;

/// The name of a check.
pub open spec fn check_name(check: HealthCheckType) -> Seq<char> {
    match check {
        HealthCheckType::Git => "git"@,
        HealthCheckType::Version => "version"@,
        HealthCheckType::Tests => "tests"@,
        HealthCheckType::Docs => "docs"@,
        HealthCheckType::Specs => "specs"@,
    }
}

/// The check of that name.
pub open spec fn check_named(name: Seq<char>) -> Option<HealthCheckType> {
    if name == "git"@ {
        Some(HealthCheckType::Git)
    } else if name == "version"@ {
        Some(HealthCheckType::Version)
    } else if name == "tests"@ {
        Some(HealthCheckType::Tests)
    } else if name == "docs"@ {
        Some(HealthCheckType::Docs)
    } else if name == "specs"@ {
        Some(HealthCheckType::Specs)
    } else {
        None
    }
}

/// The name of a status.
pub open spec fn status_name(status: HealthStatus) -> Seq<char> {
    match status {
        HealthStatus::Pass => "Pass"@,
        HealthStatus::Warn => "Warn"@,
        HealthStatus::Fail => "Fail"@,
    }
}

/// The sign that stands for a status in a report.
pub open spec fn status_icon(status: HealthStatus) -> Seq<char> {
    match status {
        HealthStatus::Pass => "✅"@,
        HealthStatus::Warn => "⚠️"@,
        HealthStatus::Fail => "❌"@,
    }
}

/// The rank of a status: the higher, the more severe.
pub open spec fn severity(status: HealthStatus) -> nat {
    match status {
        HealthStatus::Pass => 0,
        HealthStatus::Warn => 1,
        HealthStatus::Fail => 2,
    }
}

/// The more severe of two statuses.
pub open spec fn worse(a: HealthStatus, b: HealthStatus) -> HealthStatus {
    if severity(a) >= severity(b) {
        a
    } else {
        b
    }
}

/// The statuses of a sequence of results.
pub open spec fn statuses(results: Seq<HealthCheckResultView>) -> Seq<HealthStatus> {
    results.map_values(|r: HealthCheckResultView| r.status)
}

/// The status of many checks taken together: `Fail` if any failed, else
/// `Warn` if any warned, else `Pass`.
pub open spec fn overall(all: Seq<HealthStatus>) -> HealthStatus {
    if all.contains(HealthStatus::Fail) {
        HealthStatus::Fail
    } else if all.contains(HealthStatus::Warn) {
        HealthStatus::Warn
    } else {
        HealthStatus::Pass
    }
}

/// The results that came back, in the order of the outcomes. A check whose
/// task failed left no outcome and is left out.
pub open spec fn collected(outcomes: Seq<Option<HealthCheckResult>>) -> Seq<HealthCheckResultView>
    decreases outcomes.len(),
{
    if outcomes.len() == 0 {
        Seq::empty()
    } else {
        match outcomes.last() {
            Some(result) => collected(outcomes.drop_last()).push(result@),
            None => collected(outcomes.drop_last()),
        }
    }
}

/// The lines for the first `n` details of a check.
pub open spec fn detail_lines(details: Seq<Seq<char>>, n: nat) -> Seq<char>
    decreases n,
{
    if n == 0 || n > details.len() {
        Seq::empty()
    } else {
        detail_lines(details, (n - 1) as nat) + "- "@ + details[n - 1] + "\n"@
    }
}

/// The section of the report for one check.
pub open spec fn check_section(check: HealthCheckResultView) -> Seq<char> {
    "### "@ + status_icon(check.status) + " "@ + check_name(check.check_type) + " Check\n\n"@
        + "**Status:** "@ + status_name(check.status) + "\n\n"@ + check.message + "\n\n"@ + (
    if check.details.len() > 0 {
        "**Details:**\n\n"@ + detail_lines(check.details, check.details.len()) + "\n"@
    } else {
        Seq::empty()
    })
}

/// The sections for the first `n` checks.
pub open spec fn check_sections(checks: Seq<HealthCheckResultView>, n: nat) -> Seq<char>
    decreases n,
{
    if n == 0 || n > checks.len() {
        Seq::empty()
    } else {
        check_sections(checks, (n - 1) as nat) + check_section(checks[n - 1])
    }
}

/// The head of the report: title, time, workspace and overall status.
pub open spec fn report_head(report: HealthReportView) -> Seq<char> {
    "# Workspace Health Report\n\n"@ + "**Generated:** "@ + report.timestamp + "\n"@
        + "**Workspace:** `"@ + report.workspace_root + "`\n\n"@ + "**Overall Status:** "@
        + status_icon(report.overall_status) + " "@ + status_name(report.overall_status) + "\n\n"@
        + "## Check Results\n\n"@
}

/// The report in Markdown.
pub open spec fn markdown_of(report: HealthReportView) -> Seq<char> {
    report_head(report) + check_sections(report.checks, report.checks.len())
}

/// How many details a terminal listing shows: all of them when verbose or
/// when there are no more than three, else the first three.
pub open spec fn shown_details(count: nat, verbose: bool) -> nat {
    if !verbose && count > 3 {
        3
    } else {
        count
    }
}

/// Calls `str::to_lowercase`. The contract names the result.
#[verifier::external_body]
fn to_lowercase(text: &str) -> (r: String)
    ensures
        r@ == lowercased(text@),
{
    text.to_lowercase()
}

/// The sign for a status.
fn icon(status: HealthStatus) -> (r: &'static str)
    ensures
        r@ == status_icon(status),
{
    match status {
        HealthStatus::Pass => "✅",
        HealthStatus::Warn => "⚠️",
        HealthStatus::Fail => "❌",
    }
}

impl HealthCheckType {
    /// The name of the check.
    pub fn as_str(&self) -> (r: &'static str)
        ensures
            r@ == check_name(*self),
    {
        match self {
            HealthCheckType::Git => "git",
            HealthCheckType::Version => "version",
            HealthCheckType::Tests => "tests",
            HealthCheckType::Docs => "docs",
            HealthCheckType::Specs => "specs",
        }
    }

    /// The check that the lower-case name `name` stands for.
    pub fn from_lowercase(name: &str) -> (r: Option<HealthCheckType>)
        ensures
            r == check_named(name@),
    {
        if str_eq(name, "git") {
            Some(HealthCheckType::Git)
        } else if str_eq(name, "version") {
            Some(HealthCheckType::Version)
        } else if str_eq(name, "tests") {
            Some(HealthCheckType::Tests)
        } else if str_eq(name, "docs") {
            Some(HealthCheckType::Docs)
        } else if str_eq(name, "specs") {
            Some(HealthCheckType::Specs)
        } else {
            None
        }
    }

    /// The check that `name` stands for, in whatever case it is written,
    /// or a message that says that there is none.
    pub fn parse(name: &str) -> (r: Result<HealthCheckType, String>)
        ensures
            match r {
                Ok(check) => check_named(lowercased(name@)) == Some(check),
                Err(message) => check_named(lowercased(name@)) is None && message@
                    == "Unknown health check type: "@ + name@,
            },
    {
        let lower = to_lowercase(name);
        match HealthCheckType::from_lowercase(lower.as_str()) {
            Some(check) => Ok(check),
            None => {
                let mut message = String::from_str("Unknown health check type: ");
                message.append(name);
                Err(message)
            },
        }
    }

    /// The five checks, in the order in which a full run lists them.
    pub fn all() -> (r: Vec<HealthCheckType>)
        ensures
            r@ == seq![
                HealthCheckType::Git,
                HealthCheckType::Version,
                HealthCheckType::Tests,
                HealthCheckType::Docs,
                HealthCheckType::Specs,
            ],
    {
        let mut out: Vec<HealthCheckType> = Vec::new();
        out.push(HealthCheckType::Git);
        out.push(HealthCheckType::Version);
        out.push(HealthCheckType::Tests);
        out.push(HealthCheckType::Docs);
        out.push(HealthCheckType::Specs);
        assert(out@ =~= seq![
            HealthCheckType::Git,
            HealthCheckType::Version,
            HealthCheckType::Tests,
            HealthCheckType::Docs,
            HealthCheckType::Specs,
        ]);
        out
    }
}

impl core::str::FromStr for HealthCheckType {
    type Err = String;

    /// The check that `s` stands for, in whatever case it is written, or a
    /// message that says that there is none: what [`HealthCheckType::parse`]
    /// returns.
    fn from_str(s: &str) -> (r: Result<HealthCheckType, String>)
        ensures
            match r {
                Ok(check) => check_named(lowercased(s@)) == Some(check),
                Err(message) => check_named(lowercased(s@)) is None && message@
                    == "Unknown health check type: "@ + s@,
            },
    {
        HealthCheckType::parse(s)
    }
}

impl HealthStatus {
    /// Whether the status is a failure.
    pub fn is_critical(&self) -> (r: bool)
        ensures
            r == (*self == HealthStatus::Fail),
    {
        match self {
            HealthStatus::Fail => true,
            _ => false,
        }
    }

    /// The name of the status.
    pub fn name(&self) -> (r: &'static str)
        ensures
            r@ == status_name(*self),
    {
        match self {
            HealthStatus::Pass => "Pass",
            HealthStatus::Warn => "Warn",
            HealthStatus::Fail => "Fail",
        }
    }
}

/// The status of `results` taken together.
pub fn overall_status(results: &Vec<HealthCheckResult>) -> (r: HealthStatus)
    ensures
        r == overall(statuses(result_views(results@))),
{
    let ghost all = statuses(result_views(results@));
    let mut failed = false;
    let mut warned = false;
    let mut i: usize = 0;
    while i < results.len()
        invariant
            i <= results.len(),
            all == statuses(result_views(results@)),
            failed == all.take(i as int).contains(HealthStatus::Fail),
            warned == all.take(i as int).contains(HealthStatus::Warn),
        decreases results.len() - i,
    {
        let status = results[i].status;
        proof {
            let seen = all.take(i as int);
            let now = all.take(i + 1);
            assert(now == seen.push(status));
            assert(now[i as int] == status);
            assert forall|s: HealthStatus| now.contains(s) <==> (seen.contains(s) || s
                == status) by {
                if seen.contains(s) {
                    let k = choose|k: int| 0 <= k < seen.len() && seen[k] == s;
                    assert(now[k] == s);
                }
            }
        }
        match status {
            HealthStatus::Fail => {
                failed = true;
            },
            HealthStatus::Warn => {
                warned = true;
            },
            HealthStatus::Pass => {},
        }
        i += 1;
    }
    assert(all.take(results.len() as int) == all);
    if failed {
        HealthStatus::Fail
    } else if warned {
        HealthStatus::Warn
    } else {
        HealthStatus::Pass
    }
}

/// How many details a terminal listing shows, and how many it leaves out.
pub fn detail_window(count: usize, verbose: bool) -> (r: (usize, usize))
    ensures
        r.0 == shown_details(count as nat, verbose),
        r.0 + r.1 == count,
{
    if !verbose && count > 3 {
        (3, count - 3)
    } else {
        (count, 0)
    }
}

impl HealthReport {
    /// Whether a check failed.
    pub fn has_failures(&self) -> (r: bool)
        ensures
            r == statuses(self@.checks).contains(HealthStatus::Fail),
    {
        let ghost all = statuses(self@.checks);
        let mut i: usize = 0;
        while i < self.checks.len()
            invariant
                i <= self.checks.len(),
                all == statuses(self@.checks),
                forall|k: int| 0 <= k < i ==> all[k] != HealthStatus::Fail,
            decreases self.checks.len() - i,
        {
            if self.checks[i].status.is_critical() {
                assert(all[i as int] == HealthStatus::Fail);
                return true;
            }
            i += 1;
        }
        false
    }

    /// The report in Markdown: a head with time, workspace and overall
    /// status, then one section per check with its status, its message and
    /// its details.
    pub fn to_markdown(&self) -> (r: String)
        ensures
            r@ == markdown_of(self@),
    {
        let mut out = String::from_str("# Workspace Health Report\n\n");
        out.append("**Generated:** ");
        out.append(self.timestamp.as_str());
        out.append("\n");
        out.append("**Workspace:** `");
        out.append(self.workspace_root.as_str());
        out.append("`\n\n");
        out.append("**Overall Status:** ");
        out.append(icon(self.overall_status));
        out.append(" ");
        out.append(self.overall_status.name());
        out.append("\n\n");
        out.append("## Check Results\n\n");
        assert(out@ =~= report_head(self@));
        let ghost checks = self@.checks;
        let mut i: usize = 0;
        assert(out@ =~= report_head(self@) + check_sections(checks, 0));
        while i < self.checks.len()
            invariant
                i <= self.checks.len(),
                checks == self@.checks,
                out@ == report_head(self@) + check_sections(checks, i as nat),
            decreases self.checks.len() - i,
        {
            assert(checks[i as int] == self.checks@[i as int]@);
            let section = self.checks[i].section();
            out.append(section.as_str());
            i += 1;
        }
        out
    }
}

impl HealthCheckResult {
    /// The lines that list the details, one detail per line.
    pub fn detail_list(&self) -> (r: String)
        ensures
            r@ == detail_lines(self@.details, self@.details.len()),
    {
        let ghost details = views(self.details@);
        let mut out = String::new();
        let mut k: usize = 0;
        while k < self.details.len()
            invariant
                k <= self.details.len(),
                details == views(self.details@),
                out@ == detail_lines(details, k as nat),
            decreases self.details.len() - k,
        {
            let ghost so_far = out@;
            out.append("- ");
            out.append(self.details[k].as_str());
            out.append("\n");
            assert(details[k as int] == self.details@[k as int]@);
            assert(out@ == so_far + "- "@ + details[k as int] + "\n"@);
            k += 1;
        }
        out
    }

    /// The section of a Markdown report for this check.
    pub fn section(&self) -> (r: String)
        ensures
            r@ == check_section(self@),
    {
        let mut out = String::from_str("### ");
        out.append(icon(self.status));
        out.append(" ");
        out.append(self.check_type.as_str());
        out.append(" Check\n\n");
        out.append("**Status:** ");
        out.append(self.status.name());
        out.append("\n\n");
        out.append(self.message.as_str());
        out.append("\n\n");
        let ghost fixed = out@;
        if self.details.len() > 0 {
            let list = self.detail_list();
            out.append("**Details:**\n\n");
            out.append(list.as_str());
            out.append("\n");
            assert(out@ =~= fixed + ("**Details:**\n\n"@ + list@ + "\n"@));
        } else {
            assert(out@ =~= fixed + Seq::<char>::empty());
        }
        out
    }
}

impl HealthChecker {
    /// A checker for the workspace at `workspace_root`.
    pub fn new(workspace_root: &str) -> (r: HealthChecker)
        ensures
            r.workspace_root@ == workspace_root@,
    {
        HealthChecker { workspace_root: String::from_str(workspace_root) }
    }

    /// The report on the checks that were run. `outcomes` holds what each
    /// task gave back, in the order in which the checks were asked for:
    /// its result, or nothing where the task failed.
    ///
    /// A task that failed costs the report that one check and nothing else:
    /// every other result is in the report, in order. The overall status is
    /// folded from the results that are there.
    pub fn check_selected(&self, outcomes: Vec<Option<HealthCheckResult>>, timestamp: &str) -> (r:
        HealthReport)
        ensures
            r@ == (HealthReportView {
                timestamp: timestamp@,
                workspace_root: self.workspace_root@,
                checks: collected(outcomes@),
                overall_status: overall(statuses(collected(outcomes@))),
            }),
    {
        let mut checks: Vec<HealthCheckResult> = Vec::new();
        assert(outcomes@.take(0) == Seq::<Option<HealthCheckResult>>::empty());
        assert(result_views(checks@) == Seq::<HealthCheckResultView>::empty());
        for outcome in it: outcomes.into_iter()
            invariant
                it.seq() == outcomes@,
                result_views(checks@) == collected(outcomes@.take(it.index() as int)),
        {
            proof {
                let now = outcomes@.take(it.index() + 1);
                assert(now.drop_last() == outcomes@.take(it.index() as int));
                assert(now.last() == outcome);
            }
            match outcome {
                Some(result) => {
                    let ghost previous = checks@;
                    let ghost put = result@;
                    checks.push(result);
                    assert(result_views(checks@) == result_views(previous).push(put));
                },
                None => {},
            }
        }
        assert(outcomes@.take(outcomes@.len() as int) == outcomes@);
        let overall_status = overall_status(&checks);
        HealthReport {
            timestamp: String::from_str(timestamp),
            workspace_root: self.workspace_root.clone(),
            checks,
            overall_status,
        }
    }
}

/// Two statuses have a most severe one, whichever comes first; a status
/// joined with itself is itself; and joining is associative. `Pass` is the
/// least status and `Fail` the greatest.
pub proof fn lemma_severity_lattice(a: HealthStatus, b: HealthStatus, c: HealthStatus)
    ensures
        worse(a, b) == worse(b, a),
        worse(a, a) == a,
        worse(worse(a, b), c) == worse(a, worse(b, c)),
        worse(a, HealthStatus::Pass) == a,
        worse(a, HealthStatus::Fail) == HealthStatus::Fail,
{
}

/// The overall status of some checks and one more is the more severe of
/// the overall status of the checks and the status of the one.
pub proof fn lemma_overall_push(all: Seq<HealthStatus>, status: HealthStatus)
    ensures
        overall(all.push(status)) == worse(overall(all), status),
{
    let now = all.push(status);
    assert(now[all.len() as int] == status);
    assert forall|s: HealthStatus| now.contains(s) <==> (all.contains(s) || s == status) by {
        if all.contains(s) {
            let k = choose|k: int| 0 <= k < all.len() && all[k] == s;
            assert(now[k] == s);
        }
    }
}

/// The overall status does not depend on the order of the checks: two
/// sequences that hold the same statuses, each as often, fold to the same
/// status.
pub proof fn lemma_overall_order_independent(a: Seq<HealthStatus>, b: Seq<HealthStatus>)
    requires
        a.to_multiset() == b.to_multiset(),
    ensures
        overall(a) == overall(b),
{
    a.to_multiset_ensures();
    b.to_multiset_ensures();
    assert(a.contains(HealthStatus::Fail) <==> a.to_multiset().count(HealthStatus::Fail) > 0);
    assert(b.contains(HealthStatus::Fail) <==> b.to_multiset().count(HealthStatus::Fail) > 0);
    assert(a.contains(HealthStatus::Warn) <==> a.to_multiset().count(HealthStatus::Warn) > 0);
    assert(b.contains(HealthStatus::Warn) <==> b.to_multiset().count(HealthStatus::Warn) > 0);
}

/// The overall status is `Fail` exactly if a check failed, `Warn` exactly
/// if none failed and one warned, and `Pass` exactly if every check passed.
pub proof fn lemma_overall_cases(all: Seq<HealthStatus>)
    ensures
        overall(all) == HealthStatus::Fail <==> all.contains(HealthStatus::Fail),
        overall(all) == HealthStatus::Warn <==> !all.contains(HealthStatus::Fail) && all.contains(
            HealthStatus::Warn,
        ),
        overall(all) == HealthStatus::Pass <==> forall|i: int|
            0 <= i < all.len() ==> all[i] == HealthStatus::Pass,
{
    if forall|i: int| 0 <= i < all.len() ==> all[i] == HealthStatus::Pass {
        assert(!all.contains(HealthStatus::Fail));
        assert(!all.contains(HealthStatus::Warn));
    }
    if overall(all) == HealthStatus::Pass {
        assert forall|i: int| 0 <= i < all.len() implies all[i] == HealthStatus::Pass by {
            assert(all.contains(all[i]));
        }
    }
}

/// Every result that came back is in the report, in the order in which the
/// checks were asked for; nothing else is.
pub proof fn lemma_collected_keeps_results(outcomes: Seq<Option<HealthCheckResult>>, i: int)
    requires
        0 <= i < outcomes.len(),
        outcomes[i] is Some,
    ensures
        collected(outcomes).contains(outcomes[i]->Some_0@),
        collected(outcomes).len() <= outcomes.len(),
    decreases outcomes.len(),
{
    let front = outcomes.drop_last();
    if i == outcomes.len() - 1 {
        let out = collected(outcomes);
        assert(out[out.len() - 1] == outcomes[i]->Some_0@);
        lemma_collected_length(front);
    } else {
        lemma_collected_keeps_results(front, i);
        let k = choose|k: int|
            0 <= k < collected(front).len() && collected(front)[k] == front[i]->Some_0@;
        assert(collected(outcomes)[k] == outcomes[i]->Some_0@);
    }
}

/// The report holds no more results than there were checks.
pub proof fn lemma_collected_length(outcomes: Seq<Option<HealthCheckResult>>)
    ensures
        collected(outcomes).len() <= outcomes.len(),
    decreases outcomes.len(),
{
    if outcomes.len() > 0 {
        lemma_collected_length(outcomes.drop_last());
    }
}

} // verus!
