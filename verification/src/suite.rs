//! The tally of a reference suite run: which cases passed, per suite and in
//! all. Reading the case files and comparing outputs happens outside; this
//! module counts.
use vstd::prelude::*;

verus! {

/// One case of a suite: its name and the paths of its input and expected
/// output.
#[derive(Debug, Clone)]
pub struct SuiteCase {
    pub name: String,
    pub input: String,
    pub expected_output: String,
}

/// A suite: full-format suites have cases to run, the others assets that are
/// not run yet.
#[derive(Debug, Clone)]
pub struct SuiteDefinition {
    pub id: String,
    pub kind: String,
    pub note: Option<String>,
    pub cases: Vec<SuiteCase>,
    pub assets: Vec<String>,
}

/// The suites of a reference corpus.
#[derive(Debug, Clone)]
pub struct SuiteManifest {
    pub version: String,
    pub repository: String,
    pub tag: String,
    pub suites: Vec<SuiteDefinition>,
}

/// The counts of one suite.
#[derive(Debug, Clone)]
pub struct SuiteTally {
    pub id: String,
    pub kind: String,
    pub executable_cases: usize,
    pub passed_cases: usize,
    pub failed_cases: usize,
    pub pending_assets: usize,
    pub failed_case_names: Vec<String>,
    pub note: Option<String>,
}

/// The counts of all suites.
#[derive(Debug, Clone)]
pub struct ReportTally {
    pub version: String,
    pub repository: String,
    pub tag: String,
    pub suites: Vec<SuiteTally>,
    pub executable_cases: usize,
    pub passed_cases: usize,
    pub failed_cases: usize,
    pub pending_assets: usize,
}

/// The suite's cases are run.
pub open spec fn is_full_format(d: SuiteDefinition) -> bool {
    d.kind@ == "full_format"@
}

/// The number of passed outcomes.
pub open spec fn count_passed(o: Seq<bool>) -> nat
    decreases o.len(),
{
    if o.len() == 0 {
        0
    } else {
        count_passed(o.drop_last()) + if o.last() {
            1nat
        } else {
            0nat
        }
    }
}

/// The names of the cases whose outcome is a failure, in order.
pub open spec fn failed_names(cases: Seq<SuiteCase>, o: Seq<bool>) -> Seq<Seq<char>>
    decreases o.len(),
{
    if o.len() == 0 || cases.len() < o.len() {
        Seq::empty()
    } else {
        let i = o.len() - 1;
        failed_names(cases, o.drop_last()) + if o.last() {
            Seq::empty()
        } else {
            seq![cases[i].name@]
        }
    }
}

/// The tally of one suite, given the outcomes of its cases.
pub open spec fn tally_of(d: SuiteDefinition, o: Seq<bool>, t: SuiteTally) -> bool {
    &&& t.id@ == d.id@
    &&& t.kind@ == d.kind@
    &&& t.note == d.note
    &&& if is_full_format(d) {
        &&& t.executable_cases == d.cases@.len()
        &&& t.passed_cases == count_passed(o)
        &&& t.failed_cases == d.cases@.len() - count_passed(o)
        &&& t.pending_assets == 0
        &&& t.failed_case_names@.map_values(|n: String| n@) == failed_names(d.cases@, o)
    } else {
        &&& t.executable_cases == 0
        &&& t.passed_cases == 0
        &&& t.failed_cases == 0
        &&& t.pending_assets == d.assets@.len()
        &&& t.failed_case_names@.len() == 0
    }
}

/// The cases and assets of the suites from `k` on.
pub open spec fn total_items(suites: Seq<SuiteDefinition>) -> nat
    decreases suites.len(),
{
    if suites.len() == 0 {
        0
    } else {
        total_items(suites.drop_last()) + suites.last().cases@.len() + suites.last().assets@.len()
    }
}

/// The sum of a count over suites.
pub open spec fn sum_of(ts: Seq<SuiteTally>, f: spec_fn(SuiteTally) -> nat) -> nat
    decreases ts.len(),
{
    if ts.len() == 0 {
        0
    } else {
        sum_of(ts.drop_last(), f) + f(ts.last())
    }
}

proof fn lemma_count_passed_bound(o: Seq<bool>)
    ensures
        count_passed(o) <= o.len(),
    decreases o.len(),
{
    if o.len() > 0 {
        lemma_count_passed_bound(o.drop_last());
    }
}

/// Tallies one suite: a full-format suite counts its passed and failed cases
/// and names the failed ones; any other counts its assets as pending.
pub fn tally_suite(suite: SuiteDefinition, outcomes: &Vec<bool>) -> (t: SuiteTally)
    requires
        is_full_format(suite) ==> outcomes@.len() == suite.cases@.len(),
    ensures
        tally_of(suite, outcomes@, t),
{
    proof {
        reveal_strlit("full_format");
    }
    let kind_chars = crate::text::chars_of(suite.kind.as_str());
    if crate::text::text_is(&kind_chars, "full_format") {
        let mut failed_case_names: Vec<String> = Vec::new();
        let mut passed: usize = 0;
        let mut i: usize = 0;
        assert(outcomes@.subrange(0, 0) =~= Seq::<bool>::empty());
        while i < suite.cases.len()
            invariant
                outcomes@.len() == suite.cases@.len(),
                i <= suite.cases@.len(),
                passed == count_passed(outcomes@.subrange(0, i as int)),
                passed <= i,
                failed_case_names@.map_values(|n: String| n@) == failed_names(
                    suite.cases@,
                    outcomes@.subrange(0, i as int),
                ),
            decreases suite.cases@.len() - i,
        {
            let ghost pre = outcomes@.subrange(0, i + 1);
            assert(pre.drop_last() =~= outcomes@.subrange(0, i as int));
            assert(pre.last() == outcomes@[i as int]);
            if outcomes[i] {
                passed = passed + 1;
                assert(failed_case_names@.map_values(|n: String| n@) =~= failed_names(
                    suite.cases@,
                    pre,
                ));
            } else {
                let ghost before = failed_case_names@.map_values(|n: String| n@);
                let name = suite.cases[i].name.clone();
                failed_case_names.push(name);
                assert(failed_case_names@.map_values(|n: String| n@) =~= before.push(
                    suite.cases@[i as int].name@,
                ));
                assert(failed_names(suite.cases@, pre) =~= before + seq![suite.cases@[i as int].name@]);
            }
            i = i + 1;
        }
        assert(outcomes@.subrange(0, i as int) =~= outcomes@);
        let total = suite.cases.len();
        SuiteTally {
            id: suite.id,
            kind: suite.kind,
            executable_cases: total,
            passed_cases: passed,
            failed_cases: total - passed,
            pending_assets: 0,
            failed_case_names,
            note: suite.note,
        }
    } else {
        let pending = suite.assets.len();
        SuiteTally {
            id: suite.id,
            kind: suite.kind,
            executable_cases: 0,
            passed_cases: 0,
            failed_cases: 0,
            pending_assets: pending,
            failed_case_names: Vec::new(),
            note: suite.note,
        }
    }
}

/// Tallies every suite and sums the counts.
pub fn tally_suites(manifest: SuiteManifest, outcomes: &Vec<Vec<bool>>) -> (r: ReportTally)
    requires
        outcomes@.len() == manifest.suites@.len(),
        forall|k: int|
            0 <= k < manifest.suites@.len() ==> is_full_format(#[trigger] manifest.suites@[k])
                ==> outcomes@[k]@.len() == manifest.suites@[k].cases@.len(),
        total_items(manifest.suites@) <= usize::MAX,
    ensures
        r.version@ == manifest.version@,
        r.repository@ == manifest.repository@,
        r.tag@ == manifest.tag@,
        r.suites@.len() == manifest.suites@.len(),
        forall|k: int|
            0 <= k < manifest.suites@.len() ==> tally_of(
                manifest.suites@[k],
                outcomes@[k]@,
                #[trigger] r.suites@[k],
            ),
        r.executable_cases == sum_of(r.suites@, |t: SuiteTally| t.executable_cases as nat),
        r.passed_cases == sum_of(r.suites@, |t: SuiteTally| t.passed_cases as nat),
        r.failed_cases == sum_of(r.suites@, |t: SuiteTally| t.failed_cases as nat),
        r.pending_assets == sum_of(r.suites@, |t: SuiteTally| t.pending_assets as nat),
{
    let SuiteManifest { version, repository, tag, suites } = manifest;
    let ghost all = suites@;
    let mut tallies: Vec<SuiteTally> = Vec::new();
    let mut executable_cases: usize = 0;
    let mut passed_cases: usize = 0;
    let mut failed_cases: usize = 0;
    let mut pending_assets: usize = 0;
    let mut rest = suites;
    let mut k: usize = 0;
    let n = rest.len();
    assert(all.subrange(0, 0) =~= Seq::<SuiteDefinition>::empty());
    // The suites are taken from the back and put back in order afterwards,
    // so that each is moved into its tally.
    let mut reversed: Vec<SuiteDefinition> = Vec::new();
    while rest.len() > 0
        invariant
            rest@ + reversed@.reverse() == all,
        decreases rest@.len(),
    {
        let ghost before_rest = rest@;
        let ghost before_rev = reversed@;
        let d = rest.pop().unwrap();
        reversed.push(d);
        assert(reversed@.reverse() =~= seq![d] + before_rev.reverse());
        assert(before_rest =~= rest@.push(d));
        assert(rest@ + reversed@.reverse() =~= before_rest + before_rev.reverse());
    }
    assert(reversed@.reverse() =~= all);
    while k < n
        invariant
            n == all.len(),
            outcomes@.len() == all.len(),
            forall|q: int|
                0 <= q < all.len() ==> is_full_format(#[trigger] all[q]) ==> outcomes@[q]@.len()
                    == all[q].cases@.len(),
            total_items(all) <= usize::MAX,
            k <= n,
            reversed@.len() == n - k,
            forall|q: int| 0 <= q < n - k ==> #[trigger] reversed@[q] == all[n - 1 - q],
            tallies@.len() == k,
            forall|q: int| 0 <= q < k ==> tally_of(all[q], outcomes@[q]@, #[trigger] tallies@[q]),
            executable_cases == sum_of(tallies@, |t: SuiteTally| t.executable_cases as nat),
            passed_cases == sum_of(tallies@, |t: SuiteTally| t.passed_cases as nat),
            failed_cases == sum_of(tallies@, |t: SuiteTally| t.failed_cases as nat),
            pending_assets == sum_of(tallies@, |t: SuiteTally| t.pending_assets as nat),
            executable_cases + pending_assets <= total_items(all.subrange(0, k as int)),
            passed_cases <= executable_cases,
            failed_cases <= executable_cases,
        decreases n - k,
    {
        let ghost before_rev = reversed@;
        let d = reversed.pop().unwrap();
        assert(d == all[k as int]);
        assert forall|q: int| 0 <= q < n - k - 1 implies #[trigger] reversed@[q] == all[n - 1 - q] by {
            assert(reversed@[q] == before_rev[q]);
        }
        let ghost dv = d;
        let t = tally_suite(d, &outcomes[k]);
        proof {
            lemma_count_passed_bound(outcomes@[k as int]@);
            lemma_total_items_prefix(all, k as int);
        }
        executable_cases = executable_cases + t.executable_cases;
        passed_cases = passed_cases + t.passed_cases;
        failed_cases = failed_cases + t.failed_cases;
        pending_assets = pending_assets + t.pending_assets;
        let ghost before = tallies@;
        tallies.push(t);
        proof {
            assert(tallies@.drop_last() =~= before);
            assert forall|q: int| 0 <= q < k + 1 implies tally_of(
                all[q],
                outcomes@[q]@,
                #[trigger] tallies@[q],
            ) by {
                if q < k {
                    assert(tallies@[q] == before[q]);
                }
            }
        }
        k = k + 1;
    }
    ReportTally {
        version,
        repository,
        tag,
        suites: tallies,
        executable_cases,
        passed_cases,
        failed_cases,
        pending_assets,
    }
}

proof fn lemma_total_items_prefix(all: Seq<SuiteDefinition>, k: int)
    requires
        0 <= k < all.len(),
    ensures
        total_items(all.subrange(0, k + 1)) == total_items(all.subrange(0, k)) + all[k].cases@.len()
            + all[k].assets@.len(),
        total_items(all.subrange(0, k + 1)) <= total_items(all),
    decreases all.len() - k,
{
    assert(all.subrange(0, k + 1).drop_last() =~= all.subrange(0, k));
    if k + 1 < all.len() {
        lemma_total_items_prefix(all, k + 1);
    } else {
        assert(all.subrange(0, k + 1) =~= all);
    }
}

} // verus!
