use vstd::prelude::*;

verus! {

/// The outcome of one named sub-step of a test.
#[derive(Debug)]
pub struct SubTestResult {
    pub name: String,
    pub result: TestResult,
}

/// What running one test yielded. Durations are wall-clock milliseconds.
#[must_use]
#[derive(Debug)]
pub enum TestResult {
    /// Test passed.
    Passed {
        /// Optional duration to report.
        duration: Option<u64>,
    },
    /// Test was ignored.
    Ignored,
    /// Test failed, returning the captured output of the test.
    Failed {
        /// Optional duration to report.
        duration: Option<u64>,
        /// Test failure output that should be shown to the user.
        output: Vec<u8>,
    },
    /// Multiple sub tests were run.
    SubTests {
        /// Optional duration to report.
        duration: Option<u64>,
        sub_tests: Vec<SubTestResult>,
    },
}

pub open spec fn spec_duration(r: TestResult) -> Option<u64> {
    match r {
        TestResult::Passed { duration } => duration,
        TestResult::Ignored => None,
        TestResult::Failed { duration, .. } => duration,
        TestResult::SubTests { duration, .. } => duration,
    }
}

/// A result counts as failed exactly when it is `Failed`, or is
/// `SubTests` with a transitively failed entry.
pub open spec fn spec_is_failed(r: TestResult) -> bool
    decreases r, 0nat,
{
    match r {
        TestResult::Passed { .. } => false,
        TestResult::Ignored => false,
        TestResult::Failed { .. } => true,
        TestResult::SubTests { sub_tests, .. } => subs_any_failed(sub_tests@),
    }
}

pub open spec fn subs_any_failed(s: Seq<SubTestResult>) -> bool
    decreases s, 1nat,
{
    if s.len() == 0 {
        false
    } else {
        spec_is_failed(s[0].result) || subs_any_failed(s.drop_first())
    }
}

pub broadcast proof fn lemma_subs_any_failed_append(a: Seq<SubTestResult>, b: Seq<SubTestResult>)
    ensures
        #[trigger] subs_any_failed(a + b) == (subs_any_failed(a) || subs_any_failed(b)),
    decreases a.len(),
{
    if a.len() == 0 {
        assert(a + b =~= b);
    } else {
        assert((a + b).drop_first() =~= a.drop_first() + b);
        lemma_subs_any_failed_append(a.drop_first(), b);
    }
}

pub broadcast proof fn lemma_subs_any_failed_singleton(x: SubTestResult)
    ensures
        #[trigger] subs_any_failed(seq![x]) == spec_is_failed(x.result),
{
    assert(seq![x].drop_first() =~= Seq::<SubTestResult>::empty());
    assert(!subs_any_failed(Seq::<SubTestResult>::empty()));
    assert(seq![x][0] == x);
}

/// The diagnostic bytes a result contributes to the failure report: the
/// failed outputs beneath it, in order, separated by single newlines.
pub open spec fn spec_failure_output(r: TestResult) -> Seq<u8> {
    match r {
        TestResult::Passed { .. } => Seq::empty(),
        TestResult::Ignored => Seq::empty(),
        TestResult::Failed { output, .. } => output@,
        TestResult::SubTests { sub_tests, .. } => subs_failure_output(sub_tests@, Seq::empty()),
    }
}

/// The accumulator after walking the sub-results: each `Failed` entry
/// appends its output, preceded by a newline when the accumulator already
/// holds something; nested sub-results are walked in place.
pub open spec fn subs_failure_output(s: Seq<SubTestResult>, acc: Seq<u8>) -> Seq<u8>
    decreases s, 1nat,
{
    if s.len() == 0 {
        acc
    } else {
        let acc1 = match s[0].result {
            TestResult::Passed { .. } => acc,
            TestResult::Ignored => acc,
            TestResult::Failed { output, .. } => {
                if acc.len() > 0 {
                    acc + seq![10u8] + output@
                } else {
                    acc + output@
                }
            }
            TestResult::SubTests { sub_tests, .. } => subs_failure_output(sub_tests@, acc),
        };
        subs_failure_output(s.drop_first(), acc1)
    }
}

impl TestResult {
    /// The measured duration carried by the result, if any.
    pub fn duration(&self) -> (r: Option<u64>)
        ensures
            r == spec_duration(*self),
    {
        match self {
            TestResult::Passed { duration } => *duration,
            TestResult::Ignored => None,
            TestResult::Failed { duration, .. } => *duration,
            TestResult::SubTests { duration, .. } => *duration,
        }
    }

    /// Whether this result counts as a failure.
    pub fn is_failed(&self) -> (r: bool)
        ensures
            r == spec_is_failed(*self),
        decreases *self,
    {
        match self {
            TestResult::Passed { .. } => false,
            TestResult::Ignored => false,
            TestResult::Failed { .. } => true,
            TestResult::SubTests { duration, sub_tests } => {
                let ghost subs = sub_tests@;
                let mut i: usize = 0;
                while i < sub_tests.len()
                    invariant
                        subs == sub_tests@,
                        *self == (TestResult::SubTests { duration: *duration, sub_tests: *sub_tests }),
                        spec_is_failed(*self) == subs_any_failed(subs),
                        0 <= i <= subs.len(),
                        !subs_any_failed(subs.take(i as int)),
                    decreases subs.len() - i,
                {
                    let sub = &sub_tests[i];
                    proof {
                        assert(*sub == subs[i as int]);
                        assert(decreases_to!(*self => *sub_tests));
                        assert(decreases_to!(*sub_tests => sub_tests@));
                        assert(decreases_to!(sub_tests@ => sub_tests@[i as int]));
                        assert(decreases_to!(subs[i as int] => subs[i as int].result));
                        assert(subs.take(i + 1) =~= subs.take(i as int) + seq![subs[i as int]]);
                        lemma_subs_any_failed_append(subs.take(i as int), seq![subs[i as int]]);
                        lemma_subs_any_failed_singleton(subs[i as int]);
                    }
                    if sub.result.is_failed() {
                        proof {
                            assert(subs =~= subs.take(i + 1) + subs.skip(i + 1));
                            lemma_subs_any_failed_append(subs.take(i + 1), subs.skip(i + 1));
                        }
                        return true;
                    }
                    i = i + 1;
                }
                proof {
                    assert(subs.take(subs.len() as int) =~= subs);
                }
                false
            }
        }
    }
}

fn output_sub_tests(sub_tests: Vec<SubTestResult>, failure_output: &mut Vec<u8>)
    ensures
        final(failure_output)@ == subs_failure_output(sub_tests@, old(failure_output)@),
    decreases sub_tests@, 1nat,
{
    let mut sub_tests = sub_tests;
    let ghost orig = sub_tests@;
    if sub_tests.len() == 0 {
        return ;
    }
    let first = sub_tests.remove(0);
    proof {
        assert(first == orig[0]);
        assert(sub_tests@ =~= orig.drop_first());
        assert(decreases_to!(orig => orig[0]));
        assert(decreases_to!(orig => orig.drop_first())) by {
            vstd::seq::axiom_seq_subrange_decreases(orig, 1, orig.len() as int);
        }
        assert(decreases_to!(orig[0] => orig[0].result));
    }
    match first.result {
        TestResult::Passed { .. } => {}
        TestResult::Ignored => {}
        TestResult::Failed { output, .. } => {
            let ghost acc0 = failure_output@;
            if failure_output.len() > 0 {
                failure_output.push(10u8);
            }
            let mut output = output;
            let ghost out_v = output@;
            failure_output.append(&mut output);
            proof {
                if acc0.len() > 0 {
                    assert(failure_output@ =~= acc0 + seq![10u8] + out_v);
                } else {
                    assert(failure_output@ =~= acc0 + out_v);
                }
            }
        }
        TestResult::SubTests { sub_tests: nested, .. } => {
            proof {
                assert(decreases_to!(orig[0].result => nested));
                assert(decreases_to!(nested => nested@));
            }
            output_sub_tests(nested, failure_output);
        }
    }
    output_sub_tests(sub_tests, failure_output);
}

/// Extracts the diagnostic bytes of a completed result: the captured
/// output of its failures, in order, newline-separated.
pub fn collect_failure_output(result: TestResult) -> (r: Vec<u8>)
    ensures
        r@ == spec_failure_output(result),
{
    let mut failure_output: Vec<u8> = Vec::new();
    match result {
        TestResult::Passed { .. } => {}
        TestResult::Ignored => {}
        TestResult::Failed { output, .. } => {
            failure_output = output;
        }
        TestResult::SubTests { sub_tests, .. } => {
            output_sub_tests(sub_tests, &mut failure_output);
        }
    }
    failure_output
}

} // verus!
