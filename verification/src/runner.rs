use vstd::prelude::*;

verus! {

use crate::report::ReporterFailure;
use crate::report::dec_str;
use crate::report::u64_to_string;
use crate::results::TestResult;
use crate::results::spec_failure_output;
use crate::results::spec_is_failed;
use crate::strings::parse_usize_spec;
use crate::strings::parse_usize;
use crate::tree::CollectedCategoryOrTest;
use crate::tree::CollectedTest;
use crate::tree::CollectedTestCategory;
use crate::tree::TreeNode;
use crate::tree::cat_view;
use crate::tree::children_view;
use crate::tree::node_view;
use crate::tree::lemma_children_view_len;
use crate::tree::lemma_children_view_index;
use vstd::string::StrSliceExecFns;
use vstd::string::StringExecFns;

/// How a run is driven: how many tests may be in flight at once. The
/// reporter that receives the run's events is chosen by the caller of
/// the engine.
#[derive(Debug, Clone)]
pub struct RunOptions {
    pub parallelism: usize,
}

/// The thread count a run uses: one when output capturing is off, else
/// the override from the environment when it parses, else one less than
/// the machine offers, floored at one.
pub open spec fn spec_resolve_parallelism(
    no_capture: bool,
    env_value: Option<Seq<char>>,
    available: usize,
) -> usize {
    if no_capture {
        1
    } else {
        let chosen = (match env_value {
            Some(s) => (match parse_usize_spec(s) {
                Some(v) => v as int,
                None => available - 1,
            }),
            None => available - 1,
        });
        if chosen < 1 {
            1
        } else {
            chosen as usize
        }
    }
}

/// Decides the thread count from the capture toggle, the environment
/// override, and the hardware parallelism.
pub fn resolve_parallelism(no_capture: bool, env_value: Option<&str>, available: usize) -> (r:
    usize)
    requires
        available >= 1,
    ensures
        r == spec_resolve_parallelism(
            no_capture,
            (match env_value {
                Some(s) => Some(s@),
                None => None,
            }),
            available,
        ),
        r >= 1,
{
    if no_capture {
        return 1;
    }
    let parsed: Option<usize> = match env_value {
        Some(s) => parse_usize(s),
        None => None,
    };
    let chosen: usize = match parsed {
        Some(v) => v,
        None => available - 1,
    };
    if chosen < 1 {
        1
    } else {
        chosen
    }
}

/// One scheduling unit: the tests directly owned by one category, run
/// together under that category's name.
#[derive(Debug)]
pub struct CategoryBatch<T> {
    pub name: String,
    pub path: String,
    pub tests: Vec<CollectedTest<T>>,
}

/// Mathematical shape of a batch.
#[verifier::ext_equal]
pub struct BatchDesc<T> {
    pub name: Seq<char>,
    pub path: Seq<char>,
    pub tests: Seq<CollectedTest<T>>,
}

pub open spec fn batch_view<T>(b: CategoryBatch<T>) -> BatchDesc<T> {
    BatchDesc { name: b.name@, path: b.path@, tests: b.tests@ }
}

pub open spec fn batches_view<T>(bs: Seq<CategoryBatch<T>>) -> Seq<BatchDesc<T>> {
    bs.map_values(|b: CategoryBatch<T>| batch_view(b))
}

/// The tests that are direct children of a category, in order.
pub open spec fn direct_tests<T>(ns: Seq<TreeNode<T>>) -> Seq<CollectedTest<T>>
    decreases ns,
{
    if ns.len() == 0 {
        Seq::empty()
    } else {
        (match ns[0] {
            TreeNode::Test(t) => seq![t],
            TreeNode::Category { .. } => Seq::empty(),
        }) + direct_tests(ns.drop_first())
    }
}

/// The batches a tree is run as: a category with at least one direct
/// test contributes one batch before its sub-categories are descended
/// into, depth first and in tree order.
pub open spec fn spec_plan<T>(n: TreeNode<T>) -> Seq<BatchDesc<T>>
    decreases n, 1nat,
{
    match n {
        TreeNode::Test(_) => Seq::empty(),
        TreeNode::Category { name, path, children } => {
            let direct = direct_tests(children);
            (if direct.len() > 0 {
                seq![BatchDesc { name, path, tests: direct }]
            } else {
                Seq::empty()
            }) + plan_children(children)
        }
    }
}

pub open spec fn plan_children<T>(ns: Seq<TreeNode<T>>) -> Seq<BatchDesc<T>>
    decreases ns, 2nat,
{
    if ns.len() == 0 {
        Seq::empty()
    } else {
        (match ns[0] {
            TreeNode::Test(_) => Seq::empty(),
            TreeNode::Category { .. } => spec_plan(ns[0]),
        }) + plan_children(ns.drop_first())
    }
}

fn plan_children_exec<T>(nodes: Vec<CollectedCategoryOrTest<T>>) -> (r: (
    Vec<CollectedTest<T>>,
    Vec<CategoryBatch<T>>,
))
    ensures
        r.0@ == direct_tests(children_view(nodes@)),
        batches_view(r.1@) == plan_children(children_view(nodes@)),
    decreases children_view(nodes@), 2nat,
{
    let mut nodes = nodes;
    let ghost orig = nodes@;
    let ghost cs = children_view(orig);
    proof {
        lemma_children_view_len(orig);
    }
    if nodes.len() == 0 {
        let r: (Vec<CollectedTest<T>>, Vec<CategoryBatch<T>>) = (Vec::new(), Vec::new());
        proof {
            assert(r.0@ =~= direct_tests(cs));
            assert(batches_view(r.1@) =~= plan_children(cs));
        }
        return r;
    }
    let first = nodes.remove(0);
    proof {
        assert(first == orig[0]);
        assert(nodes@ =~= orig.drop_first());
        lemma_children_view_index(orig, 0);
        crate::tree::lemma_children_view_singleton(first);
        assert(children_view(orig) =~= seq![node_view(orig[0])] + children_view(
            orig.drop_first(),
        ));
        assert(decreases_to!(cs => cs[0]));
        assert(cs.drop_first() =~= children_view(orig.drop_first()));
        assert(decreases_to!(cs => cs.drop_first())) by {
            vstd::seq::axiom_seq_subrange_decreases(cs, 1, cs.len() as int);
        }
    }
    match first {
        CollectedCategoryOrTest::Test(t) => {
            let rest = plan_children_exec(nodes);
            let (mut rest_tests, rest_batches) = rest;
            rest_tests.insert(0, t);
            proof {
                assert(rest_tests@[0] == t);
                assert(rest_tests@.drop_first() =~= direct_tests(children_view(orig.drop_first())));
                assert(node_view(CollectedCategoryOrTest::Test(t)) == TreeNode::<T>::Test(t));
                assert(rest_tests@ =~= direct_tests(cs));
                assert(plan_children(cs) =~= batches_view(rest_batches@));
            }
            (rest_tests, rest_batches)
        }
        CollectedCategoryOrTest::Category(c) => {
            proof {
                assert(node_view(orig[0]) == cat_view(c));
            }
            let mut sub = plan_batches(c);
            let rest = plan_children_exec(nodes);
            let (rest_tests, mut rest_batches) = rest;
            let ghost sub_v = sub@;
            let ghost rest_v = rest_batches@;
            sub.append(&mut rest_batches);
            proof {
                assert(sub@ =~= sub_v + rest_v);
                assert forall|k: int| 0 <= k < sub@.len() implies #[trigger] batches_view(sub@)[k]
                    == (batches_view(sub_v) + batches_view(rest_v))[k] by {
                    if k < sub_v.len() {
                        assert(sub@[k] == sub_v[k]);
                    } else {
                        assert(sub@[k] == rest_v[k - sub_v.len()]);
                    }
                }
                assert(batches_view(sub@) =~= batches_view(sub_v) + batches_view(rest_v));
                assert(batches_view(sub@) =~= plan_children(cs));
                assert(rest_tests@ =~= direct_tests(cs));
            }
            (rest_tests, sub)
        }
    }
}

/// Lays a tree out as its run plan: one batch per category that owns
/// tests directly, in depth-first tree order; categories whose batch
/// would be empty contribute none.
pub fn plan_batches<T>(category: CollectedTestCategory<T>) -> (r: Vec<CategoryBatch<T>>)
    ensures
        batches_view(r@) == spec_plan(cat_view(category)),
    decreases cat_view(category), 1nat,
{
    let CollectedTestCategory { name, path, children } = category;
    let ghost cs = children_view(children@);
    proof {
        assert(cat_view(category) == (TreeNode::Category {
            name: name@,
            path: path@,
            children: cs,
        }));
        let cv = cat_view(category);
        match cv {
            TreeNode::Category { name: n2, path: p2, children: c2 } => {
                assert(c2 == cs);
                assert(decreases_to!(cv => c2));
            }
            TreeNode::Test(_) => {}
        }
        assert(decreases_to!(cat_view(category) => cs));
    }
    let pair = plan_children_exec(children);
    let (tests, mut sub_batches) = pair;
    if tests.len() > 0 {
        let batch = CategoryBatch { name, path, tests };
        let mut out: Vec<CategoryBatch<T>> = Vec::new();
        out.push(batch);
        let ghost head_v = out@;
        let ghost rest_v = sub_batches@;
        out.append(&mut sub_batches);
        proof {
            assert(out@ =~= head_v + rest_v);
            assert forall|k: int| 0 <= k < out@.len() implies #[trigger] batches_view(out@)[k] == (
            batches_view(head_v) + batches_view(rest_v))[k] by {
                if k < head_v.len() {
                    assert(out@[k] == head_v[k]);
                } else {
                    assert(out@[k] == rest_v[k - head_v.len()]);
                }
            }
            assert(batches_view(out@) =~= batches_view(head_v) + batches_view(rest_v));
            assert(batches_view(head_v) =~= seq![
                BatchDesc::<T> { name: name@, path: path@, tests: direct_tests(cs) },
            ]);
            assert(batches_view(out@) =~= spec_plan(cat_view(category)));
        }
        out
    } else {
        proof {
            assert(Seq::<BatchDesc<T>>::empty() + plan_children(cs) =~= plan_children(cs));
            assert(batches_view(sub_batches@) =~= spec_plan(cat_view(category)));
        }
        sub_batches
    }
}

/// Mathematical shape of one recorded failure.
#[verifier::ext_equal]
pub struct FailureDesc<T> {
    pub test: CollectedTest<T>,
    pub output: Seq<u8>,
}

pub open spec fn failures_view<T>(fs: Seq<ReporterFailure<T>>) -> Seq<FailureDesc<T>> {
    fs.map_values(|f: ReporterFailure<T>| FailureDesc { test: f.test, output: f.output@ })
}

/// The failures among completed results, in completion order: each
/// failed result paired with its extracted diagnostic bytes.
pub open spec fn spec_failures<T>(rs: Seq<(CollectedTest<T>, TestResult)>) -> Seq<FailureDesc<T>>
    decreases rs,
{
    if rs.len() == 0 {
        Seq::empty()
    } else {
        (if spec_is_failed(rs[0].1) {
            seq![FailureDesc { test: rs[0].0, output: spec_failure_output(rs[0].1) }]
        } else {
            Seq::empty()
        }) + spec_failures(rs.drop_first())
    }
}

/// How many of the completed results failed.
pub open spec fn count_failed<T>(rs: Seq<(CollectedTest<T>, TestResult)>) -> nat
    decreases rs,
{
    if rs.len() == 0 {
        0
    } else {
        (if spec_is_failed(rs[0].1) {
            1nat
        } else {
            0nat
        }) + count_failed(rs.drop_first())
    }
}

/// The failure list is exactly as long as the number of failed results:
/// every failed test contributes one record, and no other does.
pub proof fn lemma_failures_count<T>(rs: Seq<(CollectedTest<T>, TestResult)>)
    ensures
        spec_failures(rs).len() == count_failed(rs),
    decreases rs,
{
    if rs.len() > 0 {
        lemma_failures_count(rs.drop_first());
    }
}

/// Walks the completed results in order and keeps a failure record for
/// each failed one, with its diagnostic bytes extracted.
pub fn aggregate_failures<T>(results: Vec<(CollectedTest<T>, TestResult)>) -> (r: Vec<
    ReporterFailure<T>,
>)
    ensures
        failures_view(r@) == spec_failures(results@),
        r@.len() == count_failed(results@),
    decreases results@.len(),
{
    let mut results = results;
    let ghost orig = results@;
    proof {
        lemma_failures_count(orig);
    }
    if results.len() == 0 {
        let r: Vec<ReporterFailure<T>> = Vec::new();
        proof {
            assert(failures_view(r@) =~= spec_failures(orig));
        }
        return r;
    }
    let first = results.remove(0);
    proof {
        assert(first == orig[0]);
        assert(results@ =~= orig.drop_first());
    }
    let (test, result) = first;
    let is_failure = result.is_failed();
    if is_failure {
        let output = crate::results::collect_failure_output(result);
        let mut rest = aggregate_failures(results);
        let ghost rest_v = rest@;
        let failure = ReporterFailure { test, output };
        rest.insert(0, failure);
        proof {
            assert(rest@[0] == failure);
            assert(rest@.drop_first() =~= rest_v);
            assert forall|k: int| 0 <= k < rest@.len() implies #[trigger] failures_view(rest@)[k]
                == (seq![FailureDesc::<T> { test: orig[0].0, output: spec_failure_output(orig[0].1) }]
                + failures_view(rest_v))[k] by {
                if k == 0 {
                } else {
                    assert(rest@[k] == rest_v[k - 1]);
                }
            }
            assert(failures_view(rest@) =~= seq![
                FailureDesc::<T> { test: orig[0].0, output: spec_failure_output(orig[0].1) },
            ] + failures_view(rest_v));
            assert(failures_view(rest@) =~= spec_failures(orig));
        }
        rest
    } else {
        let rest = aggregate_failures(results);
        proof {
            assert(Seq::<FailureDesc<T>>::empty() + spec_failures(orig.drop_first())
                =~= spec_failures(orig.drop_first()));
            assert(failures_view(rest@) =~= spec_failures(orig));
        }
        rest
    }
}

/// The message the run signals failure with: the failed count, then the
/// total.
pub open spec fn run_failed_message(failed: nat, total: nat) -> Seq<char> {
    dec_str(failed) + " failed of "@ + dec_str(total)
}

/// Builds the message a failed run raises: how many tests failed of how
/// many run.
pub fn run_failure_message(failed: usize, total: usize) -> (r: String)
    ensures
        r@ == run_failed_message(failed as nat, total as nat),
{
    let mut out = u64_to_string(failed as u64);
    out.append(" failed of ");
    out.append(u64_to_string(total as u64).as_str());
    out
}

} // verus!
