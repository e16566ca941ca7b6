use deno_terminal::colors;
use file_test_runner::report::LogReporter;
use file_test_runner::report::ReporterContext;
use file_test_runner::report::ReporterFailure;
use file_test_runner::report::strip_backtrace;
use file_test_runner::report::u64_to_string;
use file_test_runner::CollectedTest;
use file_test_runner::CollectedTestCategory;
use file_test_runner::SubTestResult;
use file_test_runner::TestResult;

fn build_end_test_message(result: &TestResult, duration_ms: u64) -> String {
    LogReporter::write_end_test_message(result, duration_ms)
}

#[test]
fn test_build_end_test_message_passed() {
    assert_eq!(
        build_end_test_message(&TestResult::Passed { duration: None }, 100),
        format!("{} {}\n", colors::green_bold("ok"), colors::gray("(100ms)"))
    );
}

#[test]
fn test_build_end_test_message_failed() {
    let message = build_end_test_message(
        &TestResult::Failed {
            output: b"error".to_vec(),
            duration: None,
        },
        100,
    );
    assert_eq!(
        message,
        format!("{} {}\n", colors::red_bold("fail"), colors::gray("(100ms)"))
    );
}

#[test]
fn test_build_end_test_message_ignored() {
    assert_eq!(
        build_end_test_message(&TestResult::Ignored, 10),
        format!("{}\n", colors::gray("ignored"))
    );
}

#[test]
fn test_build_end_test_message_sub_tests() {
    let message = build_end_test_message(
        &TestResult::SubTests {
            duration: None,
            sub_tests: vec![
                SubTestResult {
                    name: "step1".to_string(),
                    result: TestResult::Passed {
                        duration: Some(20),
                    },
                },
                SubTestResult {
                    name: "step2".to_string(),
                    result: TestResult::Failed {
                        duration: None,
                        output: b"error1".to_vec(),
                    },
                },
                SubTestResult {
                    name: "step3".to_string(),
                    result: TestResult::Failed {
                        duration: Some(200),
                        output: b"error2".to_vec(),
                    },
                },
                SubTestResult {
                    name: "step4".to_string(),
                    result: TestResult::SubTests {
                        duration: None,
                        sub_tests: vec![
                            SubTestResult {
                                name: "sub-step1".to_string(),
                                result: TestResult::Passed { duration: None },
                            },
                            SubTestResult {
                                name: "sub-step2".to_string(),
                                result: TestResult::Failed {
                                    duration: None,
                                    output: b"error3".to_vec(),
                                },
                            },
                        ],
                    },
                },
            ],
        },
        10,
    );

    assert_eq!(
        message,
        format!(
            "{}\n  step1 {} {}\n  step2 {}\n  step3 {} {}\n  step4\n    sub-step1 {}\n    sub-step2 {}\n",
            colors::gray("(10ms)"),
            colors::green_bold("ok"),
            colors::gray("(20ms)"),
            colors::red_bold("fail"),
            colors::red_bold("fail"),
            colors::gray("(200ms)"),
            colors::green_bold("ok"),
            colors::red_bold("fail"),
        )
    );
}

#[test]
fn test_category_start_message() {
    let category = CollectedTestCategory::<()> {
        name: "specs".to_string(),
        path: "specs".to_string(),
        children: vec![],
    };
    assert_eq!(
        LogReporter::write_report_category_start(&category),
        format!("\n     {} specs\n\n", colors::green_bold("Running"))
    );
}

#[test]
fn test_test_start_message_modes() {
    let test = CollectedTest::<()> {
        name: "specs::a".to_string(),
        path: "specs/a.txt".to_string(),
        line_and_column: None,
        data: (),
    };
    let parallel = ReporterContext { is_parallel: true };
    let serial = ReporterContext { is_parallel: false };
    assert_eq!(LogReporter::write_report_test_start(&test, &parallel, false), "");
    assert_eq!(
        LogReporter::write_report_test_start(&test, &serial, false),
        "test specs::a ... "
    );
    assert_eq!(
        LogReporter::write_report_test_start(&test, &serial, true),
        "test specs::a ...\n"
    );
}

#[test]
fn test_long_running_message() {
    assert_eq!(
        LogReporter::write_report_long_running_test("specs::slow"),
        "test specs::slow has been running for more than 60 seconds\n"
    );
}

#[test]
fn test_failures_report_with_failures() {
    let failures = vec![
        ReporterFailure {
            test: CollectedTest::<()> {
                name: "specs::a".to_string(),
                path: "specs/a.txt".to_string(),
                line_and_column: Some((4, 2)),
                data: (),
            },
            output: b"boom".to_vec(),
        },
        ReporterFailure {
            test: CollectedTest::<()> {
                name: "specs::b".to_string(),
                path: "specs/b.txt".to_string(),
                line_and_column: None,
                data: (),
            },
            output: b"bang".to_vec(),
        },
    ];
    let report = LogReporter::write_report_failures(&failures, 5);
    assert_eq!(
        report,
        "\nfailures:\n\n\
         ---- specs::a ----\nboom\nTest file: specs/a.txt:5:3\n\n\
         ---- specs::b ----\nbang\nTest file: specs/b.txt\n\n\
         failed tests:\n    specs::a\n    specs::b\n\n"
    );
}

#[test]
fn test_failures_report_all_passed() {
    let failures: Vec<ReporterFailure<()>> = vec![];
    assert_eq!(
        LogReporter::write_report_failures(&failures, 7),
        "\n7 tests passed\n\n"
    );
}

#[test]
fn test_u64_to_string_values() {
    assert_eq!(u64_to_string(0), "0");
    assert_eq!(u64_to_string(9), "9");
    assert_eq!(u64_to_string(10), "10");
    assert_eq!(u64_to_string(120534), "120534");
    assert_eq!(u64_to_string(u64::MAX), "18446744073709551615");
}

#[test]
fn test_strip_backtrace_drops_capture_frames() {
    let text = "frame0: capture\nframe1: core::panicking::panic_fmt\nframe2: machinery\nframe3: user_code\nframe4: main";
    assert_eq!(strip_backtrace(text), "frame3: user_code\nframe4: main");
}

#[test]
fn test_strip_backtrace_without_marker_keeps_text() {
    let text = "frame0: something\nframe1: other";
    assert_eq!(strip_backtrace(text), text);
}

#[test]
fn test_long_running_threshold() {
    // The advisory fires only after a full minute has passed.
    assert!(!LogReporter::should_report_long_running(60_000));
    assert!(!LogReporter::should_report_long_running(60_999));
    assert!(LogReporter::should_report_long_running(61_000));
}
