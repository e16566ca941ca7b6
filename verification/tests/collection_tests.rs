use file_test_runner::collect::CollectTestsOptions;
use file_test_runner::collect::FileTestMapperStrategy;
use file_test_runner::CollectedTest;
use file_test_runner::collect::FileCollectionStrategy;
use file_test_runner::collect::TestCollectionStrategy;
use file_test_runner::collect::TestPerDirectoryCollectionStrategy;
use file_test_runner::collect::TestPerFileCollectionStrategy;
use file_test_runner::collect::collect_tests;
use file_test_runner::collect::ensure_valid_test_names;
use file_test_runner::fs_model::FsEntry;
use file_test_runner::CollectTestsError;
use file_test_runner::CollectedCategoryOrTest;
use file_test_runner::CollectedTestCategory;

fn file(name: &str) -> FsEntry {
    FsEntry::File { name: name.to_string() }
}

fn dir(name: &str, entries: Vec<FsEntry>) -> FsEntry {
    FsEntry::Dir { name: name.to_string(), entries }
}

fn per_file_options(pattern: Option<&str>, filter: Option<&str>) -> CollectTestsOptions {
    CollectTestsOptions {
        base: "specs".to_string(),
        strategy: FileCollectionStrategy::TestPerFile {
            file_pattern: pattern.map(|p| p.to_string()),
        },
        root_category_name: "specs".to_string(),
        filter_override: filter.map(|f| f.to_string()),
    }
}

#[test]
fn test_per_file_scenario_with_pattern() {
    // specs/ with a.txt, b.json and sub/c.txt, pattern `\.txt$`
    let entries = vec![file("a.txt"), file("b.json"), dir("sub", vec![file("c.txt")])];
    let category = collect_tests(per_file_options(Some(r"\.txt$"), None), entries).unwrap();

    assert_eq!(category.name, "specs");
    assert_eq!(category.path, "specs");
    assert_eq!(category.test_count(), 2);
    assert_eq!(category.children.len(), 2);
    match &category.children[0] {
        CollectedCategoryOrTest::Test(t) => {
            assert_eq!(t.name, "specs::a");
            assert_eq!(t.path, "specs/a.txt");
        }
        _ => panic!("Expected test"),
    }
    match &category.children[1] {
        CollectedCategoryOrTest::Category(sub) => {
            assert_eq!(sub.name, "specs::sub");
            assert_eq!(sub.path, "specs/sub");
            assert_eq!(sub.children.len(), 1);
            match &sub.children[0] {
                CollectedCategoryOrTest::Test(t) => {
                    assert_eq!(t.name, "specs::sub::c");
                    assert_eq!(t.path, "specs/sub/c.txt");
                }
                _ => panic!("Expected test"),
            }
        }
        _ => panic!("Expected category"),
    }
}

#[test]
fn test_per_file_no_matching_files_is_no_tests_found() {
    let entries = vec![file("a.json"), dir("sub", vec![file("b.json")])];
    let err = collect_tests(per_file_options(Some(r"\.txt$"), None), entries).unwrap_err();
    assert!(matches!(err, CollectTestsError::NoTestsFound));
}

#[test]
fn test_per_file_bad_pattern_is_rejected() {
    let entries = vec![file("a.txt")];
    let err = collect_tests(per_file_options(Some(r"("), None), entries).unwrap_err();
    match err {
        CollectTestsError::InvalidPattern { pattern } => assert_eq!(pattern, "("),
        _ => panic!("Expected invalid pattern error"),
    }
}

#[test]
fn test_per_file_skips_hidden_and_readme_and_sorts() {
    let entries = vec![
        file("zeta.txt"),
        file("README.md"),
        file(".hidden.txt"),
        file("alpha.txt"),
        dir(".git", vec![file("config")]),
    ];
    let category = collect_tests(per_file_options(None, None), entries).unwrap();
    let names: Vec<&str> = category
        .children
        .iter()
        .map(|c| match c {
            CollectedCategoryOrTest::Test(t) => t.name.as_str(),
            _ => panic!("Expected test"),
        })
        .collect();
    assert_eq!(names, vec!["specs::alpha", "specs::zeta"]);
}

#[test]
fn test_per_file_filter_override_prunes() {
    let entries = vec![file("apple.txt"), file("banana.txt")];
    let category = collect_tests(per_file_options(None, Some("banana")), entries).unwrap();
    assert_eq!(category.test_count(), 1);
    match &category.children[0] {
        CollectedCategoryOrTest::Test(t) => assert_eq!(t.name, "specs::banana"),
        _ => panic!("Expected test"),
    }
}

#[test]
fn test_invalid_test_name_is_rejected() {
    // A file stem with a dash yields a name unsafe for filtering.
    let entries = vec![file("bad-name.txt")];
    let err = collect_tests(per_file_options(None, None), entries).unwrap_err();
    match err {
        CollectTestsError::InvalidTestName(e) => assert_eq!(e.0, "specs::bad-name"),
        _ => panic!("Expected invalid name error"),
    }
}

fn per_dir_options(marker: &str) -> CollectTestsOptions {
    CollectTestsOptions {
        base: "specs".to_string(),
        strategy: FileCollectionStrategy::TestPerDirectory {
            file_name: marker.to_string(),
        },
        root_category_name: "specs".to_string(),
        filter_override: None,
    }
}

#[test]
fn test_per_directory_scenario() {
    let entries = vec![
        dir("case1", vec![file("__test__.jsonc"), file("data.json")]),
        dir(
            "group",
            vec![dir("case2", vec![file("__test__.jsonc")])],
        ),
    ];
    let category = collect_tests(per_dir_options("__test__.jsonc"), entries).unwrap();
    assert_eq!(category.test_count(), 2);
    match &category.children[0] {
        CollectedCategoryOrTest::Test(t) => {
            assert_eq!(t.name, "specs::case1");
            assert_eq!(t.path, "specs/case1/__test__.jsonc");
        }
        _ => panic!("Expected test"),
    }
    match &category.children[1] {
        CollectedCategoryOrTest::Category(sub) => {
            assert_eq!(sub.name, "specs::group");
            match &sub.children[0] {
                CollectedCategoryOrTest::Test(t) => {
                    assert_eq!(t.name, "specs::group::case2");
                    assert_eq!(t.path, "specs/group/case2/__test__.jsonc");
                }
                _ => panic!("Expected test"),
            }
        }
        _ => panic!("Expected category"),
    }
}

#[test]
fn test_per_directory_missing_marker_is_error() {
    // A non-empty leaf directory without the marker file is a hard error.
    let entries = vec![dir("group", vec![dir("case", vec![file("misnamed.json")])])];
    let err = collect_tests(per_dir_options("__test__.jsonc"), entries).unwrap_err();
    match err {
        CollectTestsError::MissingDirectoryTestFile { dir_path, file_name } => {
            assert_eq!(dir_path, "specs/group/case");
            assert_eq!(file_name, "__test__.jsonc");
        }
        _ => panic!("Expected missing marker error"),
    }
}

#[test]
fn test_per_directory_empty_directory_is_tolerated() {
    let entries = vec![
        dir("case1", vec![file("__test__.jsonc")]),
        dir("empty", vec![]),
    ];
    let category = collect_tests(per_dir_options("__test__.jsonc"), entries).unwrap();
    assert_eq!(category.test_count(), 1);
}

#[test]
fn test_strategy_structs_collect() {
    let per_file = TestPerFileCollectionStrategy {
        file_pattern: Some(r"\.txt$".to_string()),
    };
    let category = per_file
        .collect_tests("fixtures/specs", vec![file("a.txt"), file("b.json")])
        .unwrap();
    assert_eq!(category.name, "specs");
    assert_eq!(category.path, "fixtures/specs");
    assert_eq!(category.test_count(), 1);

    let per_dir = TestPerDirectoryCollectionStrategy {
        file_name: "__test__.jsonc".to_string(),
    };
    let category = per_dir
        .collect_tests("fixtures/specs", vec![dir("case", vec![file("__test__.jsonc")])])
        .unwrap();
    assert_eq!(category.test_count(), 1);
}

#[test]
fn test_ensure_valid_test_names_reports_first_offender() {
    let category = CollectedTestCategory {
        name: "root".to_string(),
        path: "/root".to_string(),
        children: vec![
            CollectedCategoryOrTest::Test(file_test_runner::CollectedTest {
                name: "fine_name".to_string(),
                path: "/root/a".to_string(),
                line_and_column: None,
                data: (),
            }),
            CollectedCategoryOrTest::Test(file_test_runner::CollectedTest {
                name: "bad name".to_string(),
                path: "/root/b".to_string(),
                line_and_column: None,
                data: (),
            }),
        ],
    };
    let err = ensure_valid_test_names(&category).unwrap_err();
    assert_eq!(err.0, "bad name");
    assert_eq!(
        err.display_string(),
        "Invalid test name (bad name). Use only alphanumeric and underscore characters so tests can be filtered via the command line."
    );
}

#[test]
fn test_file_test_mapper_strategy_maps_tests() {
    let strategy = FileTestMapperStrategy {
        base_strategy: TestPerFileCollectionStrategy { file_pattern: None },
        map: |t: CollectedTest<()>| -> Result<CollectedCategoryOrTest<u32>, CollectTestsError> {
            Ok(CollectedCategoryOrTest::Test(CollectedTest {
                name: t.name,
                path: t.path,
                line_and_column: Some((1, 2)),
                data: 7u32,
            }))
        },
    };
    let category = strategy
        .collect_tests("specs", vec![file("a.txt"), dir("sub", vec![file("b.txt")])])
        .unwrap();
    assert_eq!(category.name, "specs");
    assert_eq!(category.children.len(), 2);
    match &category.children[0] {
        CollectedCategoryOrTest::Test(t) => {
            assert_eq!(t.name, "specs::a");
            assert_eq!(t.data, 7);
            assert_eq!(t.line_and_column, Some((1, 2)));
        }
        _ => panic!("Expected test"),
    }
    match &category.children[1] {
        CollectedCategoryOrTest::Category(sub) => {
            assert_eq!(sub.name, "specs::sub");
            assert_eq!(sub.children.len(), 1);
        }
        _ => panic!("Expected category"),
    }
}

#[test]
fn test_per_directory_files_only_root_is_missing_marker() {
    // The base directory itself holds files but no sub-directories.
    let entries = vec![file("stray.json")];
    let err = collect_tests(per_dir_options("__test__.jsonc"), entries).unwrap_err();
    match err {
        CollectTestsError::MissingDirectoryTestFile { dir_path, file_name } => {
            assert_eq!(dir_path, "specs");
            assert_eq!(file_name, "__test__.jsonc");
        }
        _ => panic!("Expected missing marker error"),
    }
}

#[test]
fn test_error_display_strings() {
    assert_eq!(
        CollectTestsError::NoTestsFound.display_string(),
        "No tests found"
    );
    assert_eq!(
        CollectTestsError::MissingDirectoryTestFile {
            dir_path: "specs/case".to_string(),
            file_name: "__test__.jsonc".to_string(),
        }
        .display_string(),
        "Could not find '__test__.jsonc' in directory tree 'specs/case'. Perhaps the file is named incorrectly."
    );
    assert_eq!(
        file_test_runner::PathedIoError::new("specs/a.txt", "permission denied").display_string(),
        "permission denied (specs/a.txt)"
    );
}
