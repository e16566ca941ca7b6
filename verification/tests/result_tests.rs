use file_test_runner::results::collect_failure_output;
use file_test_runner::SubTestResult;
use file_test_runner::TestResult;

#[test]
fn test_collect_failure_output_failed() {
    let failure_output = collect_failure_output(TestResult::Failed {
        duration: None,
        output: b"error".to_vec(),
    });
    assert_eq!(failure_output, b"error");
}

#[test]
fn test_collect_failure_output_sub_tests() {
    let failure_output = collect_failure_output(TestResult::SubTests {
        duration: None,
        sub_tests: vec![
            SubTestResult {
                name: "step1".to_string(),
                result: TestResult::Passed { duration: None },
            },
            SubTestResult {
                name: "step2".to_string(),
                result: TestResult::Failed {
                    duration: None,
                    output: b"error1".to_vec(),
                },
            },
            SubTestResult {
                name: "step3".to_string(),
                result: TestResult::Failed {
                    duration: None,
                    output: b"error2".to_vec(),
                },
            },
            SubTestResult {
                name: "step4".to_string(),
                result: TestResult::SubTests {
                    duration: None,
                    sub_tests: vec![
                        SubTestResult {
                            name: "sub-step1".to_string(),
                            result: TestResult::Passed { duration: None },
                        },
                        SubTestResult {
                            name: "sub-step2".to_string(),
                            result: TestResult::Failed {
                                duration: None,
                                output: b"error3".to_vec(),
                            },
                        },
                    ],
                },
            },
        ],
    });

    assert_eq!(
        String::from_utf8(failure_output).unwrap(),
        "error1\nerror2\nerror3"
    );
}

#[test]
fn test_is_failed_variants() {
    assert!(!TestResult::Passed { duration: None }.is_failed());
    assert!(!TestResult::Ignored.is_failed());
    assert!(TestResult::Failed { duration: None, output: vec![] }.is_failed());
    let nested = TestResult::SubTests {
        duration: None,
        sub_tests: vec![
            SubTestResult {
                name: "ok_step".to_string(),
                result: TestResult::Passed { duration: Some(3) },
            },
            SubTestResult {
                name: "deeper".to_string(),
                result: TestResult::SubTests {
                    duration: None,
                    sub_tests: vec![SubTestResult {
                        name: "bad".to_string(),
                        result: TestResult::Failed {
                            duration: None,
                            output: b"boom".to_vec(),
                        },
                    }],
                },
            },
        ],
    };
    assert!(nested.is_failed());
    let all_good = TestResult::SubTests {
        duration: Some(5),
        sub_tests: vec![SubTestResult {
            name: "fine".to_string(),
            result: TestResult::Ignored,
        }],
    };
    assert!(!all_good.is_failed());
}

#[test]
fn test_duration_accessor() {
    assert_eq!(TestResult::Passed { duration: Some(12) }.duration(), Some(12));
    assert_eq!(TestResult::Ignored.duration(), None);
    assert_eq!(
        TestResult::Failed { duration: Some(7), output: vec![] }.duration(),
        Some(7)
    );
    assert_eq!(
        TestResult::SubTests { duration: None, sub_tests: vec![] }.duration(),
        None
    );
}
