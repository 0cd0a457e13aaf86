//! Results of a run of the conformance suite.
use vstd::prelude::*;
use crate::json::{decimal, put_number, put_text};
use crate::text::{chars_of, same_text, text_of, text_of_range};

verus! {

/// How a case ended.
#[derive(Clone, Copy, PartialEq, Eq, Structural, Debug)]
pub enum CaseStatus {
    Pass,
    Fail,
    /// A precondition was not met.
    Skip,
    /// The case aborted unexpectedly.
    Error,
}

/// The result of one case.
#[derive(Debug)]
pub struct CaseResult {
    pub id: String,
    pub category: String,
    pub status: CaseStatus,
    pub duration_ms: u128,
    /// Why the case was not passed; empty where it was.
    pub message: String,
}

/// A full run: what was run, and every result.
#[derive(Debug)]
pub struct RunReport {
    /// The start of the run and the short commit, joined by a hyphen.
    pub run_id: String,
    /// Start of the run in seconds since the Unix epoch.
    pub timestamp_epoch: u64,
    /// The commit that the server was built from.
    pub commit: String,
    pub server_version: String,
    pub host: String,
    pub total: usize,
    pub passed: usize,
    pub failed: usize,
    pub skipped: usize,
    pub errored: usize,
    pub duration_ms: u128,
    pub cases: Vec<CaseResult>,
}

/// How many of the first `n` cases ended in a way.
pub open spec fn ended(cases: Seq<CaseResult>, n: int, s: CaseStatus) -> nat
    decreases n,
{
    if n <= 0 {
        0
    } else {
        ended(cases, n - 1, s) + (if cases[n - 1].status == s {
            1nat
        } else {
            0nat
        })
    }
}

/// How long the first `n` cases took.
pub open spec fn time_taken(cases: Seq<CaseResult>, n: int) -> nat
    decreases n,
{
    if n <= 0 {
        0
    } else {
        time_taken(cases, n - 1) + cases[n - 1].duration_ms as nat
    }
}

/// The commit, shortened to twelve characters.
pub open spec fn shortened(commit: Seq<char>) -> Seq<char> {
    if commit.len() <= 12 {
        commit
    } else {
        commit.subrange(0, 12)
    }
}

/// Shortens a commit to twelve characters.
pub fn short(commit: &str) -> (r: String)
    ensures
        r@ == shortened(commit@),
{
    let c = chars_of(commit);
    if c.len() <= 12 {
        commit.to_owned()
    } else {
        text_of_range(c.as_slice(), 0, 12)
    }
}

proof fn lemma_time_grows(cases: Seq<CaseResult>, n: int, m: int)
    requires
        0 <= n <= m,
    ensures
        time_taken(cases, n) <= time_taken(cases, m),
    decreases m,
{
    if n < m {
        lemma_time_grows(cases, n, m - 1);
    }
}

impl RunReport {
    /// Makes the report of a run that started at `epoch`.
    pub fn build(cases: Vec<CaseResult>, commit: String, server_version: String, host: String, epoch: u64) -> (r: Self)
        requires
            time_taken(cases@, cases@.len() as int) <= u128::MAX,
        ensures
            r.run_id@ == decimal(epoch as nat) + "-"@ + shortened(commit@),
            r.timestamp_epoch == epoch,
            r.commit == commit,
            r.server_version == server_version,
            r.host == host,
            r.cases == cases,
            r.total == cases@.len(),
            r.passed == ended(cases@, cases@.len() as int, CaseStatus::Pass),
            r.failed == ended(cases@, cases@.len() as int, CaseStatus::Fail),
            r.skipped == ended(cases@, cases@.len() as int, CaseStatus::Skip),
            r.errored == ended(cases@, cases@.len() as int, CaseStatus::Error),
            r.duration_ms == time_taken(cases@, cases@.len() as int),
    {
        let n: usize = cases.len();
        let mut passed: usize = 0;
        let mut failed: usize = 0;
        let mut skipped: usize = 0;
        let mut errored: usize = 0;
        let mut duration_ms: u128 = 0;
        let mut i: usize = 0;
        while i < n
            invariant
                i <= n == cases@.len(),
                time_taken(cases@, n as int) <= u128::MAX,
                passed == ended(cases@, i as int, CaseStatus::Pass),
                failed == ended(cases@, i as int, CaseStatus::Fail),
                skipped == ended(cases@, i as int, CaseStatus::Skip),
                errored == ended(cases@, i as int, CaseStatus::Error),
                passed + failed + skipped + errored == i,
                duration_ms == time_taken(cases@, i as int),
            decreases n - i,
        {
            proof {
                lemma_time_grows(cases@, i + 1, n as int);
            }
            duration_ms += cases[i].duration_ms;
            match cases[i].status {
                CaseStatus::Pass => {
                    passed += 1;
                },
                CaseStatus::Fail => {
                    failed += 1;
                },
                CaseStatus::Skip => {
                    skipped += 1;
                },
                CaseStatus::Error => {
                    errored += 1;
                },
            }
            i += 1;
        }
        let mut id: Vec<char> = Vec::new();
        put_number(&mut id, epoch as u128);
        assert(id@ =~= decimal(epoch as nat));
        put_text(&mut id, "-");
        let s = short(commit.as_str());
        put_text(&mut id, s.as_str());
        RunReport {
            run_id: text_of(id.as_slice()),
            timestamp_epoch: epoch,
            commit,
            server_version,
            host,
            total: n,
            passed,
            failed,
            skipped,
            errored,
            duration_ms,
            cases,
        }
    }
}

/// Every case ends in exactly one way.
pub proof fn law_counts_add_up(cases: Seq<CaseResult>, n: int)
    requires
        0 <= n,
    ensures
        ended(cases, n, CaseStatus::Pass) + ended(cases, n, CaseStatus::Fail) + ended(cases, n, CaseStatus::Skip) + ended(
            cases,
            n,
            CaseStatus::Error,
        ) == n,
    decreases n,
{
    if n > 0 {
        law_counts_add_up(cases, n - 1);
    }
}

/// The exit code of a run.
pub open spec fn code_of(r: RunReport, no_fail: bool) -> i32 {
    if !no_fail && (r.failed > 0 || r.errored > 0) {
        1i32
    } else {
        0
    }
}

/// The exit code of a run: 1 where a case failed or aborted, unless that is waived.
pub fn exit_code(r: &RunReport, no_fail: bool) -> (c: i32)
    ensures
        c == code_of(*r, no_fail),
{
    if !no_fail && (r.failed > 0 || r.errored > 0) {
        1
    } else {
        0
    }
}

// ---------------- history ----------------

/// The name of a status in the history.
pub open spec fn status_name(s: CaseStatus) -> Seq<char> {
    match s {
        CaseStatus::Pass => "Pass"@,
        CaseStatus::Fail => "Fail"@,
        CaseStatus::Skip => "Skip"@,
        CaseStatus::Error => "Error"@,
    }
}

/// A line of the history: run, start, category, case, status and time.
pub open spec fn history_text(r: RunReport, c: CaseResult) -> Seq<char> {
    r.run_id@ + ","@ + decimal(r.timestamp_epoch as nat) + ","@ + c.category@ + ","@ + c.id@ + ","@ + status_name(c.status)
        + ","@ + decimal(c.duration_ms as nat) + "\n"@
}

fn name_of(s: CaseStatus) -> (n: &'static str)
    ensures
        n@ == status_name(s),
{
    match s {
        CaseStatus::Pass => "Pass",
        CaseStatus::Fail => "Fail",
        CaseStatus::Skip => "Skip",
        CaseStatus::Error => "Error",
    }
}

/// A line of the history.
pub fn history_line(r: &RunReport, c: &CaseResult) -> (t: String)
    ensures
        t@ == history_text(*r, *c),
{
    let mut v: Vec<char> = Vec::new();
    put_text(&mut v, r.run_id.as_str());
    assert(v@ =~= r.run_id@);
    put_text(&mut v, ",");
    put_number(&mut v, r.timestamp_epoch as u128);
    put_text(&mut v, ",");
    put_text(&mut v, c.category.as_str());
    put_text(&mut v, ",");
    put_text(&mut v, c.id.as_str());
    put_text(&mut v, ",");
    put_text(&mut v, name_of(c.status));
    put_text(&mut v, ",");
    put_number(&mut v, c.duration_ms);
    put_text(&mut v, "\n");
    text_of(v.as_slice())
}

/// A line of the summary: run, start, short commit, version, the counts, the time
/// and the share of the cases that passed, written out.
pub open spec fn summary_text(r: RunReport, rate: Seq<char>) -> Seq<char> {
    r.run_id@ + ","@ + decimal(r.timestamp_epoch as nat) + ","@ + shortened(r.commit@) + ","@ + r.server_version@ + ","@
        + decimal(r.total as nat) + ","@ + decimal(r.passed as nat) + ","@ + decimal(r.failed as nat) + ","@ + decimal(
        r.skipped as nat,
    ) + ","@ + decimal(r.errored as nat) + ","@ + decimal(r.duration_ms as nat) + ","@ + rate + "\n"@
}

/// A line of the summary; `rate` is the share of the cases that passed, written out.
pub fn summary_line(r: &RunReport, rate: &str) -> (t: String)
    ensures
        t@ == summary_text(*r, rate@),
{
    let commit = short(r.commit.as_str());
    let mut v: Vec<char> = Vec::new();
    put_text(&mut v, r.run_id.as_str());
    assert(v@ =~= r.run_id@);
    put_text(&mut v, ",");
    put_number(&mut v, r.timestamp_epoch as u128);
    put_text(&mut v, ",");
    put_text(&mut v, commit.as_str());
    put_text(&mut v, ",");
    put_text(&mut v, r.server_version.as_str());
    put_text(&mut v, ",");
    put_number(&mut v, r.total as u128);
    put_text(&mut v, ",");
    put_number(&mut v, r.passed as u128);
    put_text(&mut v, ",");
    put_number(&mut v, r.failed as u128);
    put_text(&mut v, ",");
    put_number(&mut v, r.skipped as u128);
    put_text(&mut v, ",");
    put_number(&mut v, r.errored as u128);
    put_text(&mut v, ",");
    put_number(&mut v, r.duration_ms);
    put_text(&mut v, ",");
    put_text(&mut v, rate);
    put_text(&mut v, "\n");
    text_of(v.as_slice())
}

/// The mark under which a result is printed.
pub open spec fn mark_of(s: CaseStatus) -> Seq<char> {
    match s {
        CaseStatus::Pass => "PASS"@,
        CaseStatus::Fail => "FAIL"@,
        CaseStatus::Error => "ERR "@,
        CaseStatus::Skip => "SKIP"@,
    }
}

/// The mark under which a result is printed.
pub fn badge(s: CaseStatus) -> (b: &'static str)
    ensures
        b@ == mark_of(s),
{
    match s {
        CaseStatus::Pass => "PASS",
        CaseStatus::Fail => "FAIL",
        CaseStatus::Error => "ERR ",
        CaseStatus::Skip => "SKIP",
    }
}

// ---------------- categories ----------------

/// The counts of a category.
#[derive(Debug)]
pub struct CategorySummary {
    pub name: String,
    pub pass: usize,
    pub fail: usize,
    pub skip: usize,
    pub error: usize,
}

/// How many of the first `n` cases are of a category and ended in a way.
pub open spec fn ended_in(cases: Seq<CaseResult>, n: int, category: Seq<char>, s: CaseStatus) -> nat
    decreases n,
{
    if n <= 0 {
        0
    } else {
        ended_in(cases, n - 1, category, s) + (if cases[n - 1].category@ == category && cases[n - 1].status == s {
            1nat
        } else {
            0nat
        })
    }
}

/// The categories of the first `n` cases, in the order in which they first occur.
pub open spec fn categories(cases: Seq<CaseResult>, n: int) -> Seq<Seq<char>>
    decreases n,
{
    if n <= 0 {
        Seq::empty()
    } else {
        let before = categories(cases, n - 1);
        if before.contains(cases[n - 1].category@) {
            before
        } else {
            before.push(cases[n - 1].category@)
        }
    }
}

/// Whether a summary counts the first `n` cases of its category.
pub open spec fn counts_category(e: CategorySummary, cases: Seq<CaseResult>, n: int, category: Seq<char>) -> bool {
    &&& e.name@ == category
    &&& e.pass == ended_in(cases, n, category, CaseStatus::Pass)
    &&& e.fail == ended_in(cases, n, category, CaseStatus::Fail)
    &&& e.skip == ended_in(cases, n, category, CaseStatus::Skip)
    &&& e.error == ended_in(cases, n, category, CaseStatus::Error)
}

/// Whether summaries count the first `n` cases, category by category.
pub open spec fn counts_categories(v: Seq<CategorySummary>, cases: Seq<CaseResult>, n: int) -> bool {
    let k = categories(cases, n);
    v.len() == k.len() && forall|i: int| 0 <= i < v.len() ==> counts_category(#[trigger] v[i], cases, n, k[i])
}

proof fn lemma_ended_in_bound(cases: Seq<CaseResult>, n: int, category: Seq<char>, s: CaseStatus)
    requires
        0 <= n,
    ensures
        ended_in(cases, n, category, s) <= n,
    decreases n,
{
    if n > 0 {
        lemma_ended_in_bound(cases, n - 1, category, s);
    }
}

proof fn lemma_new_category(cases: Seq<CaseResult>, n: int, category: Seq<char>, s: CaseStatus)
    requires
        0 <= n,
        !categories(cases, n).contains(category),
    ensures
        ended_in(cases, n, category, s) == 0,
    decreases n,
{
    if n > 0 {
        let before = categories(cases, n - 1);
        if before.contains(category) {
            let i = choose|i: int| 0 <= i < before.len() && before[i] == category;
            assert(categories(cases, n)[i] == category);
        }
        if cases[n - 1].category@ == category {
            assert(categories(cases, n)[before.len() as int] == category);
        }
        lemma_new_category(cases, n - 1, category, s);
    }
}

proof fn lemma_categories_distinct(cases: Seq<CaseResult>, n: int)
    ensures
        categories(cases, n).no_duplicates(),
    decreases n,
{
    if n > 0 {
        lemma_categories_distinct(cases, n - 1);
    }
}

fn find_category(v: &Vec<CategorySummary>, name: &str) -> (r: Option<usize>)
    ensures
        match r {
            Some(i) => i < v@.len() && v@[i as int].name@ == name@,
            None => forall|k: int| 0 <= k < v@.len() ==> (#[trigger] v@[k]).name@ != name@,
        },
{
    let n: usize = v.len();
    let mut i: usize = 0;
    while i < n
        invariant
            i <= n == v@.len(),
            forall|k: int| 0 <= k < i ==> (#[trigger] v@[k]).name@ != name@,
        decreases n - i,
    {
        if same_text(v[i].name.as_str(), name) {
            return Some(i);
        }
        i += 1;
    }
    None
}

fn count_in(e: CategorySummary, s: CaseStatus) -> (r: CategorySummary)
    requires
        e.pass < usize::MAX,
        e.fail < usize::MAX,
        e.skip < usize::MAX,
        e.error < usize::MAX,
    ensures
        r == (match s {
            CaseStatus::Pass => CategorySummary { pass: (e.pass + 1) as usize, ..e },
            CaseStatus::Fail => CategorySummary { fail: (e.fail + 1) as usize, ..e },
            CaseStatus::Skip => CategorySummary { skip: (e.skip + 1) as usize, ..e },
            CaseStatus::Error => CategorySummary { error: (e.error + 1) as usize, ..e },
        }),
{
    let mut e = e;
    match s {
        CaseStatus::Pass => {
            e.pass = e.pass + 1;
        },
        CaseStatus::Fail => {
            e.fail = e.fail + 1;
        },
        CaseStatus::Skip => {
            e.skip = e.skip + 1;
        },
        CaseStatus::Error => {
            e.error = e.error + 1;
        },
    }
    e
}

/// Counts the cases of a run by category, in the order in which the categories occur.
pub fn category_summaries(cases: &Vec<CaseResult>) -> (v: Vec<CategorySummary>)
    ensures
        counts_categories(v@, cases@, cases@.len() as int),
{
    let n: usize = cases.len();
    let mut v: Vec<CategorySummary> = Vec::new();
    let mut i: usize = 0;
    while i < n
        invariant
            i <= n == cases@.len(),
            counts_categories(v@, cases@, i as int),
        decreases n - i,
    {
        let name = cases[i].category.as_str();
        let ghost v0 = v@;
        let ghost k0 = categories(cases@, i as int);
        let ghost k1 = categories(cases@, i + 1);
        match find_category(&v, name) {
            Some(j) => {
                let ghost e0 = v@[j as int];
                proof {
                    assert(k0[j as int] == name@);
                    assert(k0.contains(name@));
                    lemma_ended_in_bound(cases@, i as int, name@, CaseStatus::Pass);
                    lemma_ended_in_bound(cases@, i as int, name@, CaseStatus::Fail);
                    lemma_ended_in_bound(cases@, i as int, name@, CaseStatus::Skip);
                    lemma_ended_in_bound(cases@, i as int, name@, CaseStatus::Error);
                    lemma_categories_distinct(cases@, i as int);
                }
                let e = v.remove(j);
                let e1 = count_in(e, cases[i].status);
                v.insert(j, e1);
                proof {
                    assert(v@ =~= v0.update(j as int, e1));
                    assert forall|m: int| 0 <= m < v@.len() implies counts_category(
                        #[trigger] v@[m],
                        cases@,
                        i + 1,
                        k1[m],
                    ) by {
                        assert(counts_category(v0[m], cases@, i as int, k0[m]));
                    }
                }
            },
            None => {
                proof {
                    assert(!k0.contains(name@)) by {
                        if k0.contains(name@) {
                            let m = choose|m: int| 0 <= m < k0.len() && k0[m] == name@;
                            assert(counts_category(v0[m], cases@, i as int, k0[m]));
                        }
                    }
                    lemma_new_category(cases@, i as int, name@, CaseStatus::Pass);
                    lemma_new_category(cases@, i as int, name@, CaseStatus::Fail);
                    lemma_new_category(cases@, i as int, name@, CaseStatus::Skip);
                    lemma_new_category(cases@, i as int, name@, CaseStatus::Error);
                }
                let e = CategorySummary { name: cases[i].category.clone(), pass: 0, fail: 0, skip: 0, error: 0 };
                let e1 = count_in(e, cases[i].status);
                v.push(e1);
                assert forall|m: int| 0 <= m < v@.len() implies counts_category(
                    #[trigger] v@[m],
                    cases@,
                    i + 1,
                    k1[m],
                ) by {
                    if m < v0.len() {
                        assert(counts_category(v0[m], cases@, i as int, k0[m]));
                        assert(k0[m] != name@) by {
                            if k0[m] == name@ {
                                assert(k0.contains(name@));
                            }
                        }
                    }
                }
            },
        }
        i += 1;
    }
    v
}

// ---------------- order of runs ----------------

/// Whether `p` lists the runs newest first, and of runs that started together the
/// earlier entry first.
pub open spec fn newest_first(times: Seq<u64>, p: Seq<usize>) -> bool {
    &&& p.len() == times.len()
    &&& forall|i: int| 0 <= i < p.len() ==> (#[trigger] p[i]) < times.len()
    &&& forall|i: int, j: int|
        0 <= i < j < p.len() ==> {
            let a = #[trigger] p[i];
            let b = #[trigger] p[j];
            times[a as int] > times[b as int] || (times[a as int] == times[b as int] && a < b)
        }
}

/// Puts runs in order, newest first.
pub fn order_runs(times: &Vec<u64>) -> (p: Vec<usize>)
    ensures
        newest_first(times@, p@),
{
    let n: usize = times.len();
    let mut p: Vec<usize> = Vec::new();
    let mut i: usize = 0;
    while i < n
        invariant
            i <= n == times@.len(),
            newest_first(times@.take(i as int), p@),
        decreases n - i,
    {
        let ghost t = times@.take(i as int);
        assert(forall|k: int| 0 <= k < i ==> t[k] == times@[k]);
        let mut k: usize = p.len();
        while k > 0 && times[p[k - 1]] < times[i]
            invariant
                k <= p@.len(),
                i < n == times@.len(),
                t == times@.take(i as int),
                newest_first(t, p@),
                forall|m: int| k <= m < p@.len() ==> times@[(#[trigger] p@[m]) as int] < times@[i as int],
            decreases k,
        {
            assert(p@[k - 1] < t.len());
            k -= 1;
        }
        let ghost p0 = p@;
        p.insert(k, i);
        proof {
            let t1 = times@.take(i + 1);
            assert(forall|m: int| 0 <= m <= i ==> t1[m] == times@[m]);
            assert forall|a: int, b: int| 0 <= a < b < p@.len() implies ({
                let x = #[trigger] p@[a];
                let y = #[trigger] p@[b];
                t1[x as int] > t1[y as int] || (t1[x as int] == t1[y as int] && x < y)
            }) by {
                let a0 = if a < k {
                    a
                } else {
                    a - 1
                };
                let b0 = if b < k {
                    b
                } else {
                    b - 1
                };
                if a != k && b != k {
                    assert(p@[a] == p0[a0] && p@[b] == p0[b0]);
                    assert(t[p0[a0] as int] == times@[p0[a0] as int]);
                } else if b == k {
                    assert(p@[a] == p0[a]);
                    if a < k - 1 {
                        assert(p0[a] < t.len() && p0[k - 1] < t.len());
                    }
                } else {
                    assert(p@[b] == p0[b - 1]);
                }
            }
            assert forall|m: int| 0 <= m < p@.len() implies (#[trigger] p@[m]) < t1.len() by {
                if m < k {
                    assert(p@[m] == p0[m]);
                } else if m > k {
                    assert(p@[m] == p0[m - 1]);
                }
            }
        }
        i += 1;
    }
    assert(times@.take(n as int) =~= times@);
    p
}

/// A run fails exactly where a case failed or aborted and that is not waived; skipped cases
/// fail no run.
pub proof fn law_failed_cases_fail_the_run(r: RunReport, no_fail: bool)
    ensures
        code_of(r, no_fail) == 0 || code_of(r, no_fail) == 1,
        code_of(r, no_fail) == 1 <==> !no_fail && r.failed + r.errored > 0,
{
}

/// Results are told apart by their marks, which are equally wide, and by their names.
pub proof fn law_results_are_told_apart(a: CaseStatus, b: CaseStatus)
    ensures
        mark_of(a).len() == 4,
        mark_of(a) == mark_of(b) <==> a == b,
        status_name(a) == status_name(b) <==> a == b,
        mark_of(CaseStatus::Pass) == "PASS"@,
{
    reveal_strlit("PASS");
    reveal_strlit("FAIL");
    reveal_strlit("ERR ");
    reveal_strlit("SKIP");
    reveal_strlit("Pass");
    reveal_strlit("Fail");
    reveal_strlit("Skip");
    reveal_strlit("Error");
    assert(mark_of(a)[0] == mark_of(a)[0]);
    let x = mark_of(a);
    let y = mark_of(b);
    if x == y {
        assert(x[0] == y[0] && x[1] == y[1]);
    }
    let u = status_name(a);
    let v = status_name(b);
    if u == v {
        assert(u[0] == v[0]);
    }
}

/// A case that ended in a way is counted there, and one that did not is not: the count of
/// more cases grows by it.
pub proof fn law_each_case_is_counted(cases: Seq<CaseResult>, n: int, s: CaseStatus)
    requires
        0 <= n < cases.len(),
    ensures
        ended(cases, n + 1, s) == ended(cases, n, s) + if cases[n].status == s {
            1nat
        } else {
            0
        },
        ended_in(cases, n + 1, cases[n].category@, cases[n].status) == ended_in(
            cases,
            n,
            cases[n].category@,
            cases[n].status,
        ) + 1,
        time_taken(cases, n + 1) == time_taken(cases, n) + cases[n].duration_ms,
        categories(cases, n + 1).contains(cases[n].category@),
{
    let before = categories(cases, n);
    let c = cases[n].category@;
    if !before.contains(c) {
        assert(before.push(c)[before.len() as int] == c);
    }
}

/// Runs are listed newest first, each of them once.
pub proof fn law_runs_are_listed_once(times: Seq<u64>, p: Seq<usize>, i: int, j: int)
    requires
        newest_first(times, p),
        0 <= i < j < p.len(),
    ensures
        p[i] != p[j],
        times[p[i] as int] >= times[p[j] as int],
        p.len() == times.len(),
{
}

} // verus!
