use file_test_runner::runner::CategoryBatch;
use file_test_runner::runner::aggregate_failures;
use file_test_runner::runner::plan_batches;
use file_test_runner::runner::resolve_parallelism;
use file_test_runner::runner::run_failure_message;
use file_test_runner::strings::parse_usize;
use file_test_runner::strings::str_contains;
use file_test_runner::sync::CaptureDepth;
use file_test_runner::sync::NotifyFlag;
use file_test_runner::sync::PermitCounter;
use file_test_runner::CollectedCategoryOrTest;
use file_test_runner::CollectedTest;
use file_test_runner::CollectedTestCategory;
use file_test_runner::TestResult;

fn test(name: &str) -> CollectedTest<()> {
    CollectedTest {
        name: name.to_string(),
        path: format!("/root/{}", name),
        line_and_column: None,
        data: (),
    }
}

#[test]
fn test_aggregate_failures_counts_each_failed_once() {
    // Ten completed tests, three of which failed.
    let mut results: Vec<(CollectedTest<()>, TestResult)> = Vec::new();
    for i in 0..10 {
        let name = format!("t{}", i);
        let result = if i % 3 == 0 && i > 0 {
            TestResult::Failed {
                duration: None,
                output: format!("failure {}", i).into_bytes(),
            }
        } else {
            TestResult::Passed { duration: Some(1) }
        };
        results.push((test(&name), result));
    }
    let total = results.len();
    let failures = aggregate_failures(results);
    assert_eq!(total, 10);
    assert_eq!(failures.len(), 3);
    assert_eq!(failures[0].test.name, "t3");
    assert_eq!(failures[0].output, b"failure 3");
    assert_eq!(failures[1].test.name, "t6");
    assert_eq!(failures[2].test.name, "t9");
}

#[test]
fn test_aggregate_failures_flattens_sub_test_output() {
    let nested = TestResult::SubTests {
        duration: None,
        sub_tests: vec![
            file_test_runner::SubTestResult {
                name: "one".to_string(),
                result: TestResult::Failed {
                    duration: None,
                    output: b"first".to_vec(),
                },
            },
            file_test_runner::SubTestResult {
                name: "two".to_string(),
                result: TestResult::Failed {
                    duration: None,
                    output: b"second".to_vec(),
                },
            },
        ],
    };
    let failures = aggregate_failures(vec![(test("nested"), nested)]);
    assert_eq!(failures.len(), 1);
    assert_eq!(failures[0].output, b"first\nsecond");
}

#[test]
fn test_plan_batches_orders_batches_depth_first() {
    let category = CollectedTestCategory {
        name: "root".to_string(),
        path: "/root".to_string(),
        children: vec![
            CollectedCategoryOrTest::Test(test("a")),
            CollectedCategoryOrTest::Category(CollectedTestCategory {
                name: "sub1".to_string(),
                path: "/root/sub1".to_string(),
                children: vec![
                    CollectedCategoryOrTest::Test(test("b")),
                    CollectedCategoryOrTest::Category(CollectedTestCategory {
                        name: "subsub".to_string(),
                        path: "/root/sub1/subsub".to_string(),
                        children: vec![CollectedCategoryOrTest::Test(test("c"))],
                    }),
                ],
            }),
            CollectedCategoryOrTest::Category(CollectedTestCategory {
                name: "no_direct".to_string(),
                path: "/root/no_direct".to_string(),
                children: vec![CollectedCategoryOrTest::Category(CollectedTestCategory {
                    name: "inner".to_string(),
                    path: "/root/no_direct/inner".to_string(),
                    children: vec![CollectedCategoryOrTest::Test(test("d"))],
                })],
            }),
        ],
    };
    let batches: Vec<CategoryBatch<()>> = plan_batches(category);
    let summary: Vec<(String, Vec<String>)> = batches
        .into_iter()
        .map(|b| (b.name, b.tests.into_iter().map(|t| t.name).collect()))
        .collect();
    assert_eq!(
        summary,
        vec![
            ("root".to_string(), vec!["a".to_string()]),
            ("sub1".to_string(), vec!["b".to_string()]),
            ("subsub".to_string(), vec!["c".to_string()]),
            ("inner".to_string(), vec!["d".to_string()]),
        ]
    );
}

#[test]
fn test_resolve_parallelism_rules() {
    // Capturing disabled forces a single thread.
    assert_eq!(resolve_parallelism(true, Some("8"), 16), 1);
    // A parsable override wins.
    assert_eq!(resolve_parallelism(false, Some("8"), 16), 8);
    // An unparsable override falls back to available - 1.
    assert_eq!(resolve_parallelism(false, Some("eight"), 16), 15);
    // No override: available - 1, floored at 1.
    assert_eq!(resolve_parallelism(false, None, 16), 15);
    assert_eq!(resolve_parallelism(false, None, 1), 1);
    // A zero override is floored at 1.
    assert_eq!(resolve_parallelism(false, Some("0"), 16), 1);
}

#[test]
fn test_parse_usize_cases() {
    assert_eq!(parse_usize("0"), Some(0));
    assert_eq!(parse_usize("42"), Some(42));
    assert_eq!(parse_usize("+42"), Some(42));
    assert_eq!(parse_usize(""), None);
    assert_eq!(parse_usize("+"), None);
    assert_eq!(parse_usize("4x2"), None);
    assert_eq!(parse_usize("-1"), None);
    assert_eq!(parse_usize("18446744073709551615"), Some(usize::MAX));
    assert_eq!(parse_usize("18446744073709551616"), None);
}

#[test]
fn test_str_contains_cases() {
    assert!(str_contains("abcdef", "cde"));
    assert!(str_contains("abcdef", ""));
    assert!(!str_contains("abcdef", "cdf"));
    assert!(!str_contains("ab", "abc"));
}

#[test]
fn test_run_failure_message_text() {
    assert_eq!(run_failure_message(3, 10), "3 failed of 10");
}

#[test]
fn test_permit_counter_transitions() {
    let mut permits = PermitCounter::new(2);
    assert!(!permits.would_block());
    assert!(permits.try_acquire());
    assert!(permits.try_acquire());
    assert!(permits.would_block());
    assert!(!permits.try_acquire());
    // Releasing below the ceiling wakes a waiter.
    assert!(permits.release());
    assert!(permits.try_acquire());
    // Growing the ceiling wakes everyone; shrinking does not.
    let mut other = PermitCounter::new(1);
    assert!(other.set_max(3));
    assert!(!other.set_max(2));
}

#[test]
fn test_capture_depth_edges() {
    let mut depth = CaptureDepth::new();
    // The shared handler is installed only on the step from zero to one.
    assert!(depth.enter());
    assert!(!depth.enter());
    // And removed only on the step back to zero.
    assert!(!depth.exit());
    assert!(depth.exit());
}

#[test]
fn test_notify_flag_is_sticky() {
    let mut flag = NotifyFlag::new();
    assert!(!flag.observe());
    flag.set();
    assert!(flag.observe());
    flag.set();
    assert!(flag.observe());
}
