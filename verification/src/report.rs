use vstd::prelude::*;
use vstd::string::StrSliceExecFns;
use vstd::string::StringExecFns;

verus! {

use crate::results::SubTestResult;
use crate::results::TestResult;
use crate::results::spec_duration;
use crate::strings::first_char_from;
use crate::strings::first_match_from;
use crate::strings::str_find_char_from;
use crate::strings::str_find_from;
use crate::tree::CollectedTest;
use crate::tree::CollectedTestCategory;

/// What a styled token looks like: the inner text, possibly wrapped in a
/// leading and a trailing escape sequence.
pub open spec fn styled(out: Seq<char>, inner: Seq<char>) -> bool {
    exists|p: Seq<char>, q: Seq<char>| out == #[trigger] (p + inner + q)
}

/// Relies on deno_terminal::colors::green_bold: the styled value renders
/// as the text, wrapped in escape sequences when colors are on.
#[verifier::external_body]
fn green_bold_text(s: &str) -> (r: String)
    ensures
        styled(r@, s@),
{
    format!("{}", deno_terminal::colors::green_bold(s))
}

/// Relies on deno_terminal::colors::red_bold: the styled value renders as
/// the text, wrapped in escape sequences when colors are on.
#[verifier::external_body]
fn red_bold_text(s: &str) -> (r: String)
    ensures
        styled(r@, s@),
{
    format!("{}", deno_terminal::colors::red_bold(s))
}

/// Relies on deno_terminal::colors::gray: the styled value renders as the
/// text, wrapped in escape sequences when colors are on.
#[verifier::external_body]
fn gray_text(s: &str) -> (r: String)
    ensures
        styled(r@, s@),
{
    format!("{}", deno_terminal::colors::gray(s))
}

/// The decimal digit for a value below ten.
pub open spec fn dec_digit(d: nat) -> char {
    ((48 + d) as u8) as char
}

/// The decimal rendering of a number, most significant digit first.
pub open spec fn dec_str(n: nat) -> Seq<char>
    decreases n,
{
    if n < 10 {
        seq![dec_digit(n)]
    } else {
        dec_str(n / 10) + seq![dec_digit(n % 10)]
    }
}

fn digit_char_str(d: u64) -> (r: &'static str)
    requires
        d < 10,
    ensures
        r@ == seq![dec_digit(d as nat)],
{
    if d == 0 {
        proof {
            reveal_strlit("0");
        }
        "0"
    } else if d == 1 {
        proof {
            reveal_strlit("1");
        }
        "1"
    } else if d == 2 {
        proof {
            reveal_strlit("2");
        }
        "2"
    } else if d == 3 {
        proof {
            reveal_strlit("3");
        }
        "3"
    } else if d == 4 {
        proof {
            reveal_strlit("4");
        }
        "4"
    } else if d == 5 {
        proof {
            reveal_strlit("5");
        }
        "5"
    } else if d == 6 {
        proof {
            reveal_strlit("6");
        }
        "6"
    } else if d == 7 {
        proof {
            reveal_strlit("7");
        }
        "7"
    } else if d == 8 {
        proof {
            reveal_strlit("8");
        }
        "8"
    } else {
        proof {
            reveal_strlit("9");
        }
        "9"
    }
}

/// The decimal rendering of a number as a string.
pub fn u64_to_string(n: u64) -> (r: String)
    ensures
        r@ == dec_str(n as nat),
    decreases n,
{
    if n < 10 {
        String::from_str(digit_char_str(n))
    } else {
        let mut s = u64_to_string(n / 10);
        s.append(digit_char_str(n % 10));
        s
    }
}

/// The text inside a duration display: the milliseconds in parentheses.
pub open spec fn paren_ms(ms: u64) -> Seq<char> {
    "("@ + dec_str(ms as nat) + "ms)"@
}

fn format_duration(ms: u64) -> (r: String)
    ensures
        styled(r@, paren_ms(ms)),
{
    let mut text = String::from_str("(");
    text.append(u64_to_string(ms).as_str());
    text.append("ms)");
    gray_text(text.as_str())
}

/// Whether messages go to their reporter from concurrent workers.
#[derive(Clone)]
pub struct ReporterContext {
    pub is_parallel: bool,
}

/// One failed test together with the diagnostic bytes extracted from its
/// result.
pub struct ReporterFailure<TData> {
    pub test: CollectedTest<TData>,
    pub output: Vec<u8>,
}

/// What the characters of a UTF-8-decoded byte sequence are, replacement
/// characters included.
pub uninterp spec fn utf8_lossy(bytes: Seq<u8>) -> Seq<char>;

/// Relies on String::from_utf8_lossy: the decoding depends on the bytes
/// alone, and decodes nothing from nothing.
#[verifier::external_body]
fn utf8_lossy_string(bytes: &Vec<u8>) -> (r: String)
    ensures
        r@ == utf8_lossy(bytes@),
        bytes@.len() == 0 ==> r@.len() == 0,
{
    String::from_utf8_lossy(bytes).into_owned()
}

/// The event sink the engine reports to. `test_start` and `test_end` may
/// be called from several worker threads at once in parallel mode.
pub trait Reporter<TData> {
    fn report_category_start(
        &self,
        category: &CollectedTestCategory<TData>,
        context: &ReporterContext,
    );

    fn report_category_end(
        &self,
        category: &CollectedTestCategory<TData>,
        context: &ReporterContext,
    );

    fn report_test_start(&self, test: &CollectedTest<TData>, context: &ReporterContext);

    fn report_test_end(
        &self,
        test: &CollectedTest<TData>,
        duration_ms: u64,
        result: &TestResult,
        context: &ReporterContext,
    );

    /// Reports all the currently running tests every 1 second until this method
    /// returns `true` for the test or the test is no longer running.
    ///
    /// This can be useful to report a test has been running for too long
    /// or to update a progress bar with running tests.
    fn report_running_test(&self, test_name: &str, duration_ms: u64) -> bool;

    fn report_failures(&self, failures: &Vec<ReporterFailure<TData>>, total_tests: usize);
}

/// The default reporter: renders the run as plain indented text.
pub struct LogReporter;

/// The header block announcing a category: a blank line, the styled
/// `Running` marker and the category name, then another blank line.
pub open spec fn category_start_message_ok(out: Seq<char>, name: Seq<char>) -> bool {
    exists|tok: Seq<char>|
        styled(tok, "Running"@) && out == #[trigger] ("\n     "@ + tok + " "@ + name + "\n\n"@)
}

/// What announcing one test prints before it runs: nothing in parallel
/// mode, the test name with a trailing newline when output is not
/// captured, and without one when it is.
pub open spec fn test_start_message(name: Seq<char>, is_parallel: bool, no_capture: bool) -> Seq<
    char,
> {
    if is_parallel {
        Seq::empty()
    } else if no_capture {
        "test "@ + name + " ...\n"@
    } else {
        "test "@ + name + " ... "@
    }
}

/// The advisory line for a test that has run for over a minute.
pub open spec fn long_running_message(name: Seq<char>) -> Seq<char> {
    "test "@ + name + " has been running for more than 60 seconds\n"@
}

impl LogReporter {
    /// Builds the header block announcing a category.
    pub fn write_report_category_start<TData>(category: &CollectedTestCategory<TData>) -> (r:
        String)
        ensures
            category_start_message_ok(r@, category.name@),
    {
        let tok = green_bold_text("Running");
        let mut out = String::from_str("\n     ");
        out.append(tok.as_str());
        out.append(" ");
        out.append(category.name.as_str());
        out.append("\n\n");
        proof {
            assert(out@ == "\n     "@ + tok@ + " "@ + category.name@ + "\n\n"@);
        }
        out
    }

    /// Builds what announcing one test prints before it runs.
    pub fn write_report_test_start<TData>(
        test: &CollectedTest<TData>,
        context: &ReporterContext,
        no_capture: bool,
    ) -> (r: String)
        ensures
            r@ == test_start_message(test.name@, context.is_parallel, no_capture),
    {
        if context.is_parallel {
            String::new()
        } else {
            let mut out = String::from_str("test ");
            out.append(test.name.as_str());
            if no_capture {
                out.append(" ...\n");
            } else {
                out.append(" ... ");
            }
            out
        }
    }

    /// Whether a test has been running long enough — over a full minute —
    /// for the default reporter to print the advisory line and stop
    /// tracking it.
    pub fn should_report_long_running(duration_ms: u64) -> (r: bool)
        ensures
            r == (duration_ms / 1000 > 60),
    {
        duration_ms / 1000 > 60
    }

    /// Builds the advisory line for a long-running test.
    pub fn write_report_long_running_test(test_name: &str) -> (r: String)
        ensures
            r@ == long_running_message(test_name@),
    {
        let mut out = String::from_str("test ");
        out.append(test_name);
        out.append(" has been running for more than 60 seconds\n");
        out
    }
}

/// The duration display that follows a status: nothing without a
/// duration, a space and the styled milliseconds with one.
pub open spec fn dur_suffix_ok(out: Seq<char>, d: Option<u64>) -> bool {
    match d {
        None => out == Seq::<char>::empty(),
        Some(ms) => exists|tok: Seq<char>| styled(tok, paren_ms(ms)) && out == #[trigger] (" "@
            + tok),
    }
}

/// The lines a run of sub-results renders to, one entry after the next.
pub open spec fn subs_lines_ok(out: Seq<char>, indent: Seq<char>, subs: Seq<SubTestResult>) -> bool
    decreases subs, 1nat,
{
    if subs.len() == 0 {
        out == Seq::<char>::empty()
    } else {
        exists|a: Seq<char>, b: Seq<char>|
            out == #[trigger] (a + b) && sub_entry_ok(a, indent, subs[0]) && subs_lines_ok(
                b,
                indent,
                subs.drop_first(),
            )
    }
}

/// The lines one sub-result renders to: its name, its styled status, its
/// duration display, and, for nested sub-results, their lines indented
/// one level further (or a placeholder when there are none).
pub open spec fn sub_entry_ok(out: Seq<char>, indent: Seq<char>, sub: SubTestResult) -> bool
    decreases sub, 0nat,
{
    match sub.result {
        TestResult::Passed { duration } => exists|tok: Seq<char>, ds: Seq<char>|
            styled(tok, "ok"@) && dur_suffix_ok(ds, duration) && out == #[trigger] (indent
                + sub.name@ + " "@ + tok + ds + "
"@),
        TestResult::Ignored => exists|tok: Seq<char>, ds: Seq<char>|
            styled(tok, "ignored"@) && dur_suffix_ok(ds, None) && out == #[trigger] (indent
                + sub.name@ + " "@ + tok + ds + "
"@),
        TestResult::Failed { duration, .. } => exists|tok: Seq<char>, ds: Seq<char>|
            styled(tok, "fail"@) && dur_suffix_ok(ds, duration) && out == #[trigger] (indent
                + sub.name@ + " "@ + tok + ds + "
"@),
        TestResult::SubTests { duration, sub_tests } => exists|ds: Seq<char>, rest: Seq<char>|
            dur_suffix_ok(ds, duration) && out == #[trigger] (indent + sub.name@ + ds + "
"@
                + rest) && (if sub_tests@.len() == 0 {
                exists|tok: Seq<char>|
                    styled(tok, "<no sub-tests>"@) && rest == #[trigger] (indent + "  "@ + tok
                        + "
"@)
            } else {
                subs_lines_ok(rest, indent + "  "@, sub_tests@)
            }),
    }
}

/// The whole end-of-test message: the styled status and the duration for
/// a plain result, the duration then the indented sub-lines for nested
/// sub-results. The measured duration stands in when the result carries
/// none.
pub open spec fn end_test_message_ok(out: Seq<char>, result: TestResult, fallback_ms: u64) -> bool {
    let shown = (match spec_duration(result) {
        Some(ms) => ms,
        None => fallback_ms,
    });
    match result {
        TestResult::Passed { .. } => exists|tok: Seq<char>, dtok: Seq<char>|
            styled(tok, "ok"@) && styled(dtok, paren_ms(shown)) && out == #[trigger] (tok + " "@
                + dtok + "
"@),
        TestResult::Ignored => exists|tok: Seq<char>|
            styled(tok, "ignored"@) && out == #[trigger] (tok + "
"@),
        TestResult::Failed { .. } => exists|tok: Seq<char>, dtok: Seq<char>|
            styled(tok, "fail"@) && styled(dtok, paren_ms(shown)) && out == #[trigger] (tok + " "@
                + dtok + "
"@),
        TestResult::SubTests { sub_tests, .. } => exists|dtok: Seq<char>, rest: Seq<char>|
            styled(dtok, paren_ms(shown)) && subs_lines_ok(rest, "  "@, sub_tests@) && out
                == #[trigger] (dtok + "
"@ + rest),
    }
}

fn duration_suffix(d: Option<u64>) -> (r: String)
    ensures
        dur_suffix_ok(r@, d),
{
    match d {
        Some(ms) => {
            let mut out = String::from_str(" ");
            out.append(format_duration(ms).as_str());
            out
        }
        None => String::new(),
    }
}

fn sub_entry_message(indent: &str, sub: &SubTestResult) -> (r: String)
    ensures
        sub_entry_ok(r@, indent@, *sub),
    decreases *sub, 0nat, 0nat,
{
    let mut out = String::from_str(indent);
    out.append(sub.name.as_str());
    match &sub.result {
        TestResult::Passed { duration } => {
            let ds = duration_suffix(*duration);
            let tok = green_bold_text("ok");
            out.append(" ");
            out.append(tok.as_str());
            out.append(ds.as_str());
            out.append("
");
            proof {
                assert(out@ == indent@ + sub.name@ + " "@ + tok@ + ds@ + "
"@);
            }
            out
        }
        TestResult::Ignored => {
            let ds = duration_suffix(None);
            let tok = gray_text("ignored");
            out.append(" ");
            out.append(tok.as_str());
            out.append(ds.as_str());
            out.append("
");
            proof {
                assert(out@ == indent@ + sub.name@ + " "@ + tok@ + ds@ + "
"@);
            }
            out
        }
        TestResult::Failed { duration, .. } => {
            let ds = duration_suffix(*duration);
            let tok = red_bold_text("fail");
            out.append(" ");
            out.append(tok.as_str());
            out.append(ds.as_str());
            out.append("
");
            proof {
                assert(out@ == indent@ + sub.name@ + " "@ + tok@ + ds@ + "
"@);
            }
            out
        }
        TestResult::SubTests { duration, sub_tests } => {
            proof {
                assert(*sub == (SubTestResult { name: sub.name, result: sub.result }));
                assert(decreases_to!(*sub => sub.result));
                assert(decreases_to!(sub.result => *sub_tests));
                assert(decreases_to!(*sub_tests => sub_tests@));
            }
            let ds = duration_suffix(*duration);
            out.append(ds.as_str());
            out.append("
");
            let ghost head = out@;
            proof {
                assert(head == indent@ + sub.name@ + ds@ + "
"@);
            }
            let mut inner_indent = String::from_str(indent);
            inner_indent.append("  ");
            if sub_tests.len() == 0 {
                let tok = gray_text("<no sub-tests>");
                out.append(inner_indent.as_str());
                out.append(tok.as_str());
                out.append("
");
                proof {
                    assert(out@ == head + (indent@ + "  "@ + tok@ + "
"@));
                }
                out
            } else {
                let rest = sub_lines_message(inner_indent.as_str(), sub_tests, 0);
                out.append(rest.as_str());
                proof {
                    assert(sub_tests@.skip(0) =~= sub_tests@);
                    assert(out@ == head + rest@);
                }
                out
            }
        }
    }
}

fn sub_lines_message(indent: &str, subs: &Vec<SubTestResult>, i: usize) -> (r: String)
    requires
        i <= subs@.len(),
    ensures
        subs_lines_ok(r@, indent@, subs@.skip(i as int)),
    decreases subs@, subs@.len() - i, 1nat,
{
    if i == subs.len() {
        proof {
            assert(subs@.skip(i as int).len() == 0);
        }
        String::new()
    } else {
        let sub = &subs[i];
        proof {
            assert(*sub == subs@[i as int]);
            assert(decreases_to!(subs@ => subs@[i as int]));
        }
        let entry = sub_entry_message(indent, sub);
        let rest = sub_lines_message(indent, subs, i + 1);
        let mut out = entry;
        out.append(rest.as_str());
        proof {
            assert(subs@.skip(i as int)[0] == subs@[i as int]);
            assert(subs@.skip(i as int).drop_first() =~= subs@.skip(i + 1));
        }
        out
    }
}

impl LogReporter {
    /// Builds the message that closes one test: its status, duration and
    /// any sub-result lines.
    pub fn write_end_test_message(result: &TestResult, duration_ms: u64) -> (r: String)
        ensures
            end_test_message_ok(r@, *result, duration_ms),
    {
        let shown: u64 = match result.duration() {
            Some(ms) => ms,
            None => duration_ms,
        };
        match result {
            TestResult::Passed { .. } => {
                let tok = green_bold_text("ok");
                let dtok = format_duration(shown);
                let mut out = tok;
                out.append(" ");
                out.append(dtok.as_str());
                out.append("
");
                out
            }
            TestResult::Ignored => {
                let mut out = gray_text("ignored");
                out.append("
");
                out
            }
            TestResult::Failed { .. } => {
                let tok = red_bold_text("fail");
                let dtok = format_duration(shown);
                let mut out = tok;
                out.append(" ");
                out.append(dtok.as_str());
                out.append("
");
                out
            }
            TestResult::SubTests { sub_tests, .. } => {
                let dtok = format_duration(shown);
                let mut out = dtok;
                out.append("
");
                let ghost head = out@;
                let rest = sub_lines_message("  ", sub_tests, 0);
                out.append(rest.as_str());
                proof {
                    assert(sub_tests@.skip(0) =~= sub_tests@);
                    assert(out@ == head + rest@);
                }
                out
            }
        }
    }

    /// Builds the message that follows one test in the live log: in
    /// parallel mode the name is repeated before the closing message.
    pub fn write_report_test_end<TData>(
        test: &CollectedTest<TData>,
        duration_ms: u64,
        result: &TestResult,
        context: &ReporterContext,
    ) -> (r: String)
        ensures
            exists|m: Seq<char>|
                #[trigger] end_test_message_ok(m, *result, duration_ms) && r@ == (if context.is_parallel {
                    "test "@ + test.name@ + " ... "@
                } else {
                    Seq::<char>::empty()
                }) + m,
    {
        let m = Self::write_end_test_message(result, duration_ms);
        if context.is_parallel {
            let mut out = String::from_str("test ");
            out.append(test.name.as_str());
            out.append(" ... ");
            out.append(m.as_str());
            proof {
                assert(out@ == ("test "@ + test.name@ + " ... "@) + m@);
            }
            out
        } else {
            proof {
                assert(m@ == Seq::<char>::empty() + m@);
            }
            m
        }
    }
}

/// One failure block of the final report: the name banner, the decoded
/// diagnostic output, the test file line, then a blank line.
pub open spec fn failure_block<T>(f: ReporterFailure<T>) -> Seq<char> {
    "---- "@ + f.test.name@ + " ----
"@ + utf8_lossy(f.output@) + "
"@ + (match f
        .test
        .line_and_column {
        Some((l, c)) => "Test file: "@ + f.test.path@ + ":"@ + dec_str(l as nat + 1) + ":"@
            + dec_str(c as nat + 1) + "
"@,
        None => "Test file: "@ + f.test.path@ + "
"@,
    }) + "
"@
}

pub open spec fn failure_blocks<T>(fs: Seq<ReporterFailure<T>>) -> Seq<char>
    decreases fs,
{
    if fs.len() == 0 {
        Seq::empty()
    } else {
        failure_block(fs[0]) + failure_blocks(fs.drop_first())
    }
}

/// The flat list of failed test names that closes the report.
pub open spec fn failed_names<T>(fs: Seq<ReporterFailure<T>>) -> Seq<char>
    decreases fs,
{
    if fs.len() == 0 {
        Seq::empty()
    } else {
        "    "@ + fs[0].test.name@ + "
"@ + failed_names(fs.drop_first())
    }
}

/// The whole final report: each failure in full and then the flat list of
/// failed names, or the pass count when nothing failed.
pub open spec fn failures_message<T>(fs: Seq<ReporterFailure<T>>, total: nat) -> Seq<char> {
    "
"@ + (if fs.len() > 0 {
        "failures:

"@ + failure_blocks(fs) + "failed tests:
"@ + failed_names(fs)
    } else {
        dec_str(total) + " tests passed
"@
    }) + "
"@
}

proof fn lemma_failure_blocks_take_succ<T>(fs: Seq<ReporterFailure<T>>, i: int)
    requires
        0 <= i < fs.len(),
    ensures
        failure_blocks(fs.take(i + 1)) == failure_blocks(fs.take(i)) + failure_block(fs[i]),
        failed_names(fs.take(i + 1)) == failed_names(fs.take(i)) + ("    "@ + fs[i].test.name@
            + "
"@),
    decreases i,
{
    if i == 0 {
        assert(fs.take(1)[0] == fs[0]);
        assert(fs.take(1).drop_first() =~= Seq::<ReporterFailure<T>>::empty());
        assert(fs.take(0) =~= Seq::<ReporterFailure<T>>::empty());
        assert(failure_blocks(fs.take(1)) =~= failure_blocks(fs.take(0)) + failure_block(fs[0]));
        assert(failed_names(fs.take(1)) =~= failed_names(fs.take(0)) + ("    "@ + fs[0].test.name@
            + "
"@));
    } else {
        lemma_failure_blocks_take_succ(fs.drop_first(), i - 1);
        assert(fs.take(i + 1).drop_first() =~= fs.drop_first().take(i));
        assert(fs.take(i).drop_first() =~= fs.drop_first().take(i - 1));
        assert(fs.take(i + 1)[0] == fs[0]);
        assert(fs.take(i)[0] == fs[0]);
        assert(fs.drop_first()[i - 1] == fs[i]);
        assert(failure_blocks(fs.take(i + 1)) =~= failure_blocks(fs.take(i)) + failure_block(
            fs[i],
        ));
        assert(failed_names(fs.take(i + 1)) =~= failed_names(fs.take(i)) + ("    "@
            + fs[i].test.name@ + "
"@));
    }
}

impl LogReporter {
    /// Builds the final report: each failure's name, diagnostic text and
    /// source location, then the flat list of failed names; or the pass
    /// count when the list is empty.
    pub fn write_report_failures<TData>(
        failures: &Vec<ReporterFailure<TData>>,
        total_tests: usize,
    ) -> (r: String)
        ensures
            r@ == failures_message(failures@, total_tests as nat),
    {
        let ghost fs = failures@;
        let mut out = String::from_str("\n");
        if failures.len() > 0 {
            out.append("failures:\n\n");
            let ghost header = out@;
            let mut i: usize = 0;
            while i < failures.len()
                invariant
                    fs == failures@,
                    0 <= i <= fs.len(),
                    header == "\n"@ + "failures:\n\n"@,
                    out@ == header + failure_blocks(fs.take(i as int)),
                decreases fs.len() - i,
            {
                let f = &failures[i];
                proof {
                    assert(*f == fs[i as int]);
                    lemma_failure_blocks_take_succ(fs, i as int);
                }
                let block = failure_block_string(f);
                out.append(block.as_str());
                i = i + 1;
            }
            proof {
                assert(fs.take(fs.len() as int) =~= fs);
            }
            out.append("failed tests:\n");
            let ghost header2 = out@;
            let mut j: usize = 0;
            while j < failures.len()
                invariant
                    fs == failures@,
                    0 <= j <= fs.len(),
                    header2 == "\n"@ + "failures:\n\n"@ + failure_blocks(fs) + "failed tests:\n"@,
                    out@ == header2 + failed_names(fs.take(j as int)),
                decreases fs.len() - j,
            {
                let f = &failures[j];
                proof {
                    assert(*f == fs[j as int]);
                    lemma_failure_blocks_take_succ(fs, j as int);
                }
                let mut line = String::from_str("    ");
                line.append(f.test.name.as_str());
                line.append("\n");
                out.append(line.as_str());
                proof {
                    assert(line@ == "    "@ + fs[j as int].test.name@ + "\n"@);
                }
                j = j + 1;
            }
            proof {
                assert(fs.take(fs.len() as int) =~= fs);
            }
        } else {
            out.append(u64_to_string(total_tests as u64).as_str());
            out.append(" tests passed\n");
        }
        out.append("\n");
        out
    }
}

fn failure_block_string<TData>(f: &ReporterFailure<TData>) -> (r: String)
    ensures
        r@ == failure_block(*f),
{
    let mut out = String::from_str("---- ");
    out.append(f.test.name.as_str());
    out.append(" ----\n");
    out.append(utf8_lossy_string(&f.output).as_str());
    out.append("\n");
    let ghost head = out@;
    proof {
        assert(head == "---- "@ + f.test.name@ + " ----\n"@ + utf8_lossy(f.output@) + "\n"@);
    }
    out.append("Test file: ");
    out.append(f.test.path.as_str());
    match f.test.line_and_column {
        Some((l, c)) => {
            out.append(":");
            out.append(u64_to_string(l as u64 + 1).as_str());
            out.append(":");
            out.append(u64_to_string(c as u64 + 1).as_str());
            out.append("\n");
            proof {
                assert(out@ == head + ("Test file: "@ + f.test.path@ + ":"@ + dec_str(
                    l as nat + 1,
                ) + ":"@ + dec_str(c as nat + 1) + "\n"@));
            }
        }
        None => {
            out.append("\n");
            proof {
                assert(out@ == head + ("Test file: "@ + f.test.path@ + "\n"@));
            }
        }
    }
    out.append("\n");
    out
}

/// The text whose lines the backtrace renderer prints, with the capture
/// machinery's own frames stripped from the top: everything after the
/// line that follows the one naming the panic entry point. When no such
/// line occurs the text stays whole; when nothing follows it, nothing is
/// left.
pub open spec fn spec_strip_backtrace(text: Seq<char>) -> Seq<char> {
    let o = first_match_from(text, "core::panicking::panic_fmt"@, 0);
    if o < 0 {
        text
    } else {
        let n1 = first_char_from(text, (10u8 as char), o);
        if n1 < 0 {
            Seq::empty()
        } else {
            let n2 = first_char_from(text, (10u8 as char), n1 + 1);
            if n2 < 0 {
                Seq::empty()
            } else {
                text.skip(n2 + 1)
            }
        }
    }
}

/// Strips the capture machinery's frames from the top of a rendered
/// backtrace: drops everything through the line that follows the one
/// naming the panic entry point.
pub fn strip_backtrace(text: &str) -> (r: String)
    ensures
        r@ == spec_strip_backtrace(text@),
{
    let text_len: usize = text.unicode_len();
    let needle = "core::panicking::panic_fmt";
    let needle_len: usize = needle.unicode_len();
    match str_find_from(text, needle, 0, text_len, needle_len) {
        None => String::from_str(text),
        Some(o) => {
            match str_find_char_from(text, (10u8 as char), o, text_len) {
                None => String::new(),
                Some(n1) => {
                    match str_find_char_from(text, (10u8 as char), n1 + 1, text_len) {
                        None => String::new(),
                        Some(n2) => {
                            let tail = text.substring_char(n2 + 1, text_len);
                            proof {
                                assert(text@.subrange(n2 + 1, text_len as int) =~= text@.skip(
                                    n2 + 1,
                                ));
                            }
                            String::from_str(tail)
                        }
                    }
                }
            }
        }
    }
}

} // verus!
