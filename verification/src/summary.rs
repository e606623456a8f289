//! Totals over many reports, and the markdown summary of them.
use vstd::prelude::*;
use crate::report::{TestSuite, FailedTest, FailedTestView, failed_views};
use crate::text::{after_last_dot, decimal_text, decimal_string, simple_type_name};

verus! {

/// The count attributes of a suite.
pub enum Count {
    Tests,
    Failures,
    Errors,
    Skipped,
}

/// One count of a suite.
pub open spec fn count_of(s: TestSuite, which: Count) -> u32 {
    match which {
        Count::Tests => s.tests,
        Count::Failures => s.failures,
        Count::Errors => s.errors,
        Count::Skipped => s.skipped,
    }
}

/// The sum of one count over a list of suites.
pub open spec fn sum_counts(suites: Seq<TestSuite>, which: Count) -> int
    decreases suites.len(),
{
    if suites.len() == 0 {
        0
    } else {
        sum_counts(suites.drop_last(), which) + count_of(suites.last(), which)
    }
}

/// The parsed contents of one report file: its suites and its failures.
pub type FileReport = (Vec<TestSuite>, Vec<FailedTest>);

/// The suites of all reports, file after file.
pub open spec fn all_suites(reports: Seq<FileReport>) -> Seq<TestSuite>
    decreases reports.len(),
{
    if reports.len() == 0 {
        Seq::empty()
    } else {
        all_suites(reports.drop_last()) + reports.last().0@
    }
}

/// The failures of all reports, file after file.
pub open spec fn all_failures(reports: Seq<FileReport>) -> Seq<FailedTestView>
    decreases reports.len(),
{
    if reports.len() == 0 {
        Seq::empty()
    } else {
        all_failures(reports.drop_last()) + failed_views(reports.last().1@)
    }
}

/// Sums are additive over concatenation, and never negative.
pub proof fn lemma_sum_counts_append(a: Seq<TestSuite>, b: Seq<TestSuite>, which: Count)
    ensures
        sum_counts(a + b, which) == sum_counts(a, which) + sum_counts(b, which),
        sum_counts(b, which) >= 0,
    decreases b.len(),
{
    if b.len() == 0 {
        assert(a + b =~= a);
    } else {
        lemma_sum_counts_append(a, b.drop_last(), which);
        assert((a + b).drop_last() =~= a + b.drop_last());
    }
}

/// Each total adds up the attribute of its own kind: one more suite raises
/// the tests total by its `tests`, the failures total by its `failures`, the
/// errors total by its `errors` and the skipped total by its `skipped`; no
/// suites give 0.
pub proof fn law_totals_read_their_own_attribute(suites: Seq<TestSuite>, s: TestSuite)
    ensures
        sum_counts(Seq::empty(), Count::Tests) == 0,
        sum_counts(Seq::empty(), Count::Failures) == 0,
        sum_counts(Seq::empty(), Count::Errors) == 0,
        sum_counts(Seq::empty(), Count::Skipped) == 0,
        sum_counts(suites.push(s), Count::Tests) == sum_counts(suites, Count::Tests) + s.tests,
        sum_counts(suites.push(s), Count::Failures) == sum_counts(suites, Count::Failures)
            + s.failures,
        sum_counts(suites.push(s), Count::Errors) == sum_counts(suites, Count::Errors) + s.errors,
        sum_counts(suites.push(s), Count::Skipped) == sum_counts(suites, Count::Skipped)
            + s.skipped,
{
    assert(suites.push(s).drop_last() =~= suites);
}

/// The totals of a report collection, counted suite by suite over the files
/// in order, are the sums of the totals of any split of it into a front and a back.
pub proof fn law_totals_are_additive(a: Seq<FileReport>, b: Seq<FileReport>, which: Count)
    ensures
        sum_counts(all_suites(a + b), which) == sum_counts(all_suites(a), which) + sum_counts(
            all_suites(b),
            which,
        ),
        all_failures(a + b) == all_failures(a) + all_failures(b),
    decreases b.len(),
{
    if b.len() == 0 {
        assert(a + b =~= a);
        assert(all_suites(b) =~= Seq::<TestSuite>::empty());
        assert(all_suites(a) + Seq::<TestSuite>::empty() =~= all_suites(a));
        assert(all_failures(a) + Seq::<FailedTestView>::empty() =~= all_failures(a));
    } else {
        law_totals_are_additive(a, b.drop_last(), which);
        assert((a + b).drop_last() =~= a + b.drop_last());
        assert((a + b).last() == b.last());
        let sa = all_suites(a);
        let sb = all_suites(b.drop_last());
        let last = b.last().0@;
        assert(all_suites(a + b) == all_suites(a + b.drop_last()) + last);
        lemma_sum_counts_append(all_suites(a + b.drop_last()), last, which);
        lemma_sum_counts_append(sb, last, which);
        assert(all_failures(a + b) =~= all_failures(a) + all_failures(b));
    }
}

/// Adds one count of the suites to `total`, or gives none where a `u32` sum overflows.
fn add_counts(total: u32, suites: &Vec<TestSuite>, which: Count) -> (r: Option<u32>)
    ensures
        total + sum_counts(suites@, which) <= u32::MAX ==> r == Some(
            (total + sum_counts(suites@, which)) as u32,
        ),
        total + sum_counts(suites@, which) > u32::MAX ==> r is None,
{
    let mut acc = total;
    let mut i: usize = 0;
    while i < suites.len()
        invariant
            i <= suites@.len(),
            acc == total + sum_counts(suites@.take(i as int), which),
        decreases suites@.len() - i,
    {
        let s = suites[i];
        let c = match which {
            Count::Tests => s.tests,
            Count::Failures => s.failures,
            Count::Errors => s.errors,
            Count::Skipped => s.skipped,
        };
        assert(suites@.take(i + 1).drop_last() =~= suites@.take(i as int));
        match acc.checked_add(c) {
            Some(v) => {
                acc = v;
            },
            None => {
                proof {
                    lemma_sum_counts_append(
                        suites@.take(i + 1),
                        suites@.subrange(i + 1, suites@.len() as int),
                        which,
                    );
                    assert(suites@.take(i + 1) + suites@.subrange(i + 1, suites@.len() as int)
                        =~= suites@);
                }
                return None;
            },
        }
        i = i + 1;
    }
    assert(suites@.take(suites@.len() as int) =~= suites@);
    Some(acc)
}

/// The totals and failures of a set of reports.
pub struct Summary {
    pub total_tests: u32,
    pub total_failures: u32,
    pub total_errors: u32,
    pub total_skipped: u32,
    pub failures: Vec<FailedTest>,
}

/// The four totals fit in a `u32`.
pub open spec fn totals_fit(reports: Seq<FileReport>) -> bool {
    &&& sum_counts(all_suites(reports), Count::Tests) <= u32::MAX
    &&& sum_counts(all_suites(reports), Count::Failures) <= u32::MAX
    &&& sum_counts(all_suites(reports), Count::Errors) <= u32::MAX
    &&& sum_counts(all_suites(reports), Count::Skipped) <= u32::MAX
}

/// Adds up the counts of all suites of all reports and gathers their
/// failures in order; gives none where a total does not fit in a `u32`
/// (where the sums in `u32` overflow).
pub fn summarize(reports: Vec<FileReport>) -> (r: Option<Summary>)
    ensures
        r is Some <==> totals_fit(reports@),
        r matches Some(s) ==> {
            &&& s.total_tests == sum_counts(all_suites(reports@), Count::Tests)
            &&& s.total_failures == sum_counts(all_suites(reports@), Count::Failures)
            &&& s.total_errors == sum_counts(all_suites(reports@), Count::Errors)
            &&& s.total_skipped == sum_counts(all_suites(reports@), Count::Skipped)
            &&& failed_views(s.failures@) == all_failures(reports@)
        },
{
    let ghost all = reports@;
    let mut tests: u32 = 0;
    let mut failures: u32 = 0;
    let mut errors: u32 = 0;
    let mut skipped: u32 = 0;
    let mut failed: Vec<FailedTest> = Vec::new();
    assert(failed_views(failed@) =~= Seq::<FailedTestView>::empty());
    for report in it: reports
        invariant
            it.seq() == all,
            tests == sum_counts(all_suites(all.take(it.index() as int)), Count::Tests),
            failures == sum_counts(all_suites(all.take(it.index() as int)), Count::Failures),
            errors == sum_counts(all_suites(all.take(it.index() as int)), Count::Errors),
            skipped == sum_counts(all_suites(all.take(it.index() as int)), Count::Skipped),
            failed_views(failed@) == all_failures(all.take(it.index() as int)),
    {
        let ghost i = it.index() as int;
        let ghost front = all.take(i);
        let ghost upto = all.take(i + 1);
        assert(upto.drop_last() =~= front);
        assert(upto.last() == report);
        proof {
            lemma_sum_counts_append(all_suites(front), report.0@, Count::Tests);
            lemma_sum_counts_append(all_suites(front), report.0@, Count::Failures);
            lemma_sum_counts_append(all_suites(front), report.0@, Count::Errors);
            lemma_sum_counts_append(all_suites(front), report.0@, Count::Skipped);
            assert(all.take(i + 1) + all.subrange(i + 1, all.len() as int) =~= all);
            law_totals_are_additive(all.take(i + 1), all.subrange(i + 1, all.len() as int), Count::Tests);
            law_totals_are_additive(all.take(i + 1), all.subrange(i + 1, all.len() as int), Count::Failures);
            law_totals_are_additive(all.take(i + 1), all.subrange(i + 1, all.len() as int), Count::Errors);
            law_totals_are_additive(all.take(i + 1), all.subrange(i + 1, all.len() as int), Count::Skipped);
            lemma_sum_counts_append(Seq::empty(), all_suites(all.subrange(i + 1, all.len() as int)), Count::Tests);
            lemma_sum_counts_append(Seq::empty(), all_suites(all.subrange(i + 1, all.len() as int)), Count::Failures);
            lemma_sum_counts_append(Seq::empty(), all_suites(all.subrange(i + 1, all.len() as int)), Count::Errors);
            lemma_sum_counts_append(Seq::empty(), all_suites(all.subrange(i + 1, all.len() as int)), Count::Skipped);
        }
        let (suites, mut found) = report;
        tests = match add_counts(tests, &suites, Count::Tests) {
            Some(v) => v,
            None => return None,
        };
        failures = match add_counts(failures, &suites, Count::Failures) {
            Some(v) => v,
            None => return None,
        };
        errors = match add_counts(errors, &suites, Count::Errors) {
            Some(v) => v,
            None => return None,
        };
        skipped = match add_counts(skipped, &suites, Count::Skipped) {
            Some(v) => v,
            None => return None,
        };
        let ghost before = failed@;
        let ghost moved = found@;
        failed.append(&mut found);
        assert(failed_views(failed@) =~= failed_views(before) + failed_views(moved));
    }
    assert(all.take(all.len() as int) =~= all);
    Some(
        Summary {
            total_tests: tests,
            total_failures: failures,
            total_errors: errors,
            total_skipped: skipped,
            failures: failed,
        },
    )
}


// ---- markdown ----

/// The heading of a failed test: its name, then in brackets the simple type
/// name and the message, leaving out what is empty.
pub open spec fn header_text(name: Seq<char>, failure_type: Seq<char>, message: Seq<char>) -> Seq<
    char,
> {
    let label = after_last_dot(failure_type);
    if message.len() > 0 && label.len() > 0 {
        "### "@ + name + " ("@ + label + ": "@ + message + ")"@
    } else if label.len() > 0 {
        "### "@ + name + " ("@ + label + ")"@
    } else {
        "### "@ + name
    }
}

/// Formats the heading line of a failed test, e.g.
/// `### testA (AssertionError: expected true)`.
pub fn failure_header(name: &str, failure_type: &str, message: &str) -> (r: String)
    ensures
        r@ == header_text(name@, failure_type@, message@),
{
    let label = simple_type_name(failure_type);
    let mut out = String::from_str("### ");
    out.append(name);
    if !message.is_empty() && !label.is_empty() {
        out.append(" (");
        out.append(label);
        out.append(": ");
        out.append(message);
        out.append(")");
    } else if !label.is_empty() {
        out.append(" (");
        out.append(label);
        out.append(")");
    }
    out
}

/// The heading depends on the failure type only through its simple name: two
/// types with the same part after the last `.` give the same heading, and the
/// full type gives the heading of its simple name.
pub proof fn law_header_uses_simple_type_name(
    name: Seq<char>,
    t1: Seq<char>,
    t2: Seq<char>,
    message: Seq<char>,
)
    requires
        after_last_dot(t1) == after_last_dot(t2),
    ensures
        header_text(name, t1, message) == header_text(name, t2, message),
        header_text(name, t1, message) == header_text(name, after_last_dot(t1), message),
{
    crate::text::law_simple_type_name_idempotent(t1);
}

/// The heading of a failed test: `### name`, followed, when the type has a
/// non-empty simple name `label` (which holds no `.`), by ` (label)` or, with
/// a message, ` (label: message)`.
pub proof fn law_header_shape(name: Seq<char>, failure_type: Seq<char>, message: Seq<char>)
    ensures
        !after_last_dot(failure_type).contains('.'),
        after_last_dot(failure_type).len() == 0 ==> header_text(name, failure_type, message)
            == "### "@ + name,
        after_last_dot(failure_type).len() > 0 && message.len() == 0 ==> header_text(
            name,
            failure_type,
            message,
        ) == "### "@ + name + " ("@ + after_last_dot(failure_type) + ")"@,
        after_last_dot(failure_type).len() > 0 && message.len() > 0 ==> header_text(
            name,
            failure_type,
            message,
        ) == "### "@ + name + " ("@ + after_last_dot(failure_type) + ": "@ + message + ")"@,
{
    crate::text::law_simple_type_name_idempotent(failure_type);
}

/// The markdown block of one failed test: heading, file, and the trimmed
/// message body in a code fence when there is one.
pub open spec fn failure_block(f: FailedTestView) -> Seq<char> {
    header_text(f.name, f.failure_type, f.message) + "\n"@ + "path: "@ + f.file + "\n"@ + "\n"@ + (
    if f.body.len() > 0 {
        "```\n"@ + f.body + "\n"@ + "```\n"@
    } else {
        Seq::empty()
    }) + "\n"@
}

/// The blocks of a list of failed tests, one after the other.
pub open spec fn failure_blocks(fs: Seq<FailedTestView>) -> Seq<char>
    decreases fs.len(),
{
    if fs.len() == 0 {
        Seq::empty()
    } else {
        failure_blocks(fs.drop_last()) + failure_block(fs.last())
    }
}

/// The tests that neither failed, errored nor were skipped; 0 where the
/// declared counts exceed the number of tests (each subtraction saturates).
pub open spec fn succeeded_count(tests: u32, failures: u32, errors: u32, skipped: u32) -> u32 {
    let a = if tests >= failures { (tests - failures) as u32 } else { 0 };
    let b = if a >= errors { (a - errors) as u32 } else { 0 };
    if b >= skipped { (b - skipped) as u32 } else { 0 }
}

/// No more tests succeed than ran.
pub proof fn law_succeeded_at_most_tests(tests: u32, failures: u32, errors: u32, skipped: u32)
    ensures
        succeeded_count(tests, failures, errors, skipped) <= tests,
        failures as int + errors as int + skipped as int <= tests ==> succeeded_count(
            tests,
            failures,
            errors,
            skipped,
        ) == tests - failures - errors - skipped,
{
}

/// The `# Summary` section.
pub open spec fn summary_section(s: Summary) -> Seq<char> {
    "# Summary\n"@ + "Succeeded: "@ + decimal_text(
        succeeded_count(s.total_tests, s.total_failures, s.total_errors, s.total_skipped) as nat,
    ) + "\n"@ + "Failure: "@ + decimal_text((s.total_failures + s.total_errors) as nat) + "\n"@
        + "Skip: "@ + decimal_text(s.total_skipped as nat) + "\n"@ + "\n"@
}

/// The `## Failures` section: empty when no test failed.
pub open spec fn failures_section(fs: Seq<FailedTestView>) -> Seq<char> {
    if fs.len() == 0 {
        Seq::empty()
    } else {
        "## Failures\n"@ + failure_blocks(fs)
    }
}

/// The whole summary: the `# Summary` section unless only failures are
/// asked for, then the `## Failures` section.
pub open spec fn summary_markdown(s: Summary, failure_only: bool) -> Seq<char> {
    (if failure_only {
        Seq::empty()
    } else {
        summary_section(s)
    }) + failures_section(failed_views(s.failures@))
}

/// Asking for failures only leaves out exactly the `# Summary` section.
pub proof fn law_failure_only_drops_summary(s: Summary)
    ensures
        summary_markdown(s, false) == summary_section(s) + summary_markdown(s, true),
{
    assert(Seq::<char>::empty() + failures_section(failed_views(s.failures@)) =~= failures_section(
        failed_views(s.failures@),
    ));
}

/// Without failed tests there is no `## Failures` section, and with
/// failures only asked for the summary is empty.
pub proof fn law_no_failures_no_section(s: Summary)
    requires
        s.failures@.len() == 0,
    ensures
        summary_markdown(s, false) == summary_section(s),
        summary_markdown(s, true) == Seq::<char>::empty(),
{
    assert(summary_section(s) + Seq::<char>::empty() =~= summary_section(s));
    assert(Seq::<char>::empty() + Seq::<char>::empty() =~= Seq::<char>::empty());
}

/// Appends the block of one failed test.
fn push_failure_block(out: &mut String, f: &FailedTest)
    ensures
        final(out)@ == old(out)@ + failure_block(f@),
{
    let header = failure_header(f.name.as_str(), f.failure_type.as_str(), f.message.as_str());
    out.append(header.as_str());
    out.append("\n");
    out.append("path: ");
    out.append(f.file.as_str());
    out.append("\n");
    out.append("\n");
    let ghost mid = out@;
    if !f.body.as_str().is_empty() {
        out.append("```\n");
        out.append(f.body.as_str());
        out.append("\n");
        out.append("```\n");
    }
    let ghost fence = if f@.body.len() > 0 {
        "```\n"@ + f@.body + "\n"@ + "```\n"@
    } else {
        Seq::<char>::empty()
    };
    assert(out@ =~= mid + fence);
    out.append("\n");
    assert(out@ =~= old(out)@ + failure_block(f@));
}

/// Renders the markdown summary: unless `failure_only`, the `# Summary`
/// section with the succeeded, failed (failures and errors) and skipped
/// counts; then, when any test failed, the `## Failures` section.
pub fn render_summary(s: &Summary, failure_only: bool) -> (r: String)
    requires
        failure_only || s.total_failures + s.total_errors <= u32::MAX,
    ensures
        r@ == summary_markdown(*s, failure_only),
{
    let mut out = String::new();
    if !failure_only {
        let succeeded = s.total_tests.saturating_sub(s.total_failures).saturating_sub(
            s.total_errors,
        ).saturating_sub(s.total_skipped);
        out.append("# Summary\n");
        out.append("Succeeded: ");
        out.append(decimal_string(succeeded).as_str());
        out.append("\n");
        out.append("Failure: ");
        out.append(decimal_string(s.total_failures + s.total_errors).as_str());
        out.append("\n");
        out.append("Skip: ");
        out.append(decimal_string(s.total_skipped).as_str());
        out.append("\n");
        out.append("\n");
        assert(out@ =~= summary_section(*s));
    }
    let ghost head = out@;
    assert(head == (if failure_only {
        Seq::<char>::empty()
    } else {
        summary_section(*s)
    }));
    let n = s.failures.len();
    if n > 0 {
        out.append("## Failures\n");
        let ghost start = out@;
        let ghost fs = failed_views(s.failures@);
        let mut i: usize = 0;
        assert(start + failure_blocks(fs.take(0)) =~= start);
        while i < n
            invariant
                i <= n,
                n == s.failures@.len(),
                fs == failed_views(s.failures@),
                out@ == start + failure_blocks(fs.take(i as int)),
            decreases n - i,
        {
            let ghost before = out@;
            push_failure_block(&mut out, &s.failures[i]);
            assert(fs.take(i + 1).drop_last() =~= fs.take(i as int));
            assert(fs.take(i + 1).last() == s.failures@[i as int]@);
            assert(out@ =~= start + failure_blocks(fs.take(i + 1)));
            i = i + 1;
        }
        assert(fs.take(n as int) =~= fs);
        assert(out@ =~= head + failures_section(fs));
    } else {
        assert(out@ =~= head + failures_section(failed_views(s.failures@)));
    }
    out
}

} // verus!
