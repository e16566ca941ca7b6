use file_test_runner::tree::CollectedCategoryOrTest;
use file_test_runner::tree::CollectedTest;
use file_test_runner::tree::CollectedTestCategory;

fn test(name: &str, path: &str) -> CollectedCategoryOrTest<()> {
    CollectedCategoryOrTest::Test(CollectedTest {
        name: name.to_string(),
        path: path.to_string(),
        line_and_column: None,
        data: (),
    })
}

#[test]
fn test_partition() {
    // Create a test category with nested structure
    let category = CollectedTestCategory {
        name: "root".to_string(),
        path: "/root".to_string(),
        children: vec![
            test("test_foo", "/root/foo.rs"),
            test("test_bar", "/root/bar.rs"),
            CollectedCategoryOrTest::Category(CollectedTestCategory {
                name: "nested".to_string(),
                path: "/root/nested".to_string(),
                children: vec![
                    test("test_baz", "/root/nested/baz.rs"),
                    test("test_qux", "/root/nested/qux.rs"),
                ],
            }),
        ],
    };

    // Partition based on whether name contains "ba"
    let (matching, non_matching) = category.partition(|test: &CollectedTest<()>| test.name.contains("ba"));

    // Check matching category
    assert_eq!(matching.name, "root");
    assert_eq!(matching.path, "/root".to_string());
    assert_eq!(matching.test_count(), 2);

    // Check that matching contains test_bar and nested/test_baz
    assert_eq!(matching.children.len(), 2);
    match &matching.children[0] {
        CollectedCategoryOrTest::Test(test) => assert_eq!(test.name, "test_bar"),
        _ => panic!("Expected test"),
    }
    match &matching.children[1] {
        CollectedCategoryOrTest::Category(cat) => {
            assert_eq!(cat.name, "nested");
            assert_eq!(cat.children.len(), 1);
            match &cat.children[0] {
                CollectedCategoryOrTest::Test(test) => {
                    assert_eq!(test.name, "test_baz")
                }
                _ => panic!("Expected test"),
            }
        }
        _ => panic!("Expected category"),
    }

    // Check non-matching category
    assert_eq!(non_matching.name, "root");
    assert_eq!(non_matching.path, "/root".to_string());
    assert_eq!(non_matching.test_count(), 2);

    // Check that non-matching contains test_foo and nested/test_qux
    assert_eq!(non_matching.children.len(), 2);
    match &non_matching.children[0] {
        CollectedCategoryOrTest::Test(test) => assert_eq!(test.name, "test_foo"),
        _ => panic!("Expected test"),
    }
    match &non_matching.children[1] {
        CollectedCategoryOrTest::Category(cat) => {
            assert_eq!(cat.name, "nested");
            assert_eq!(cat.children.len(), 1);
            match &cat.children[0] {
                CollectedCategoryOrTest::Test(test) => {
                    assert_eq!(test.name, "test_qux")
                }
                _ => panic!("Expected test"),
            }
        }
        _ => panic!("Expected category"),
    }
}

#[test]
fn test_partition_empty_categories_filtered() {
    // Create a category where all tests in a nested category match
    let category = CollectedTestCategory {
        name: "root".to_string(),
        path: "/root".to_string(),
        children: vec![
            test("test_match", "/root/match.rs"),
            CollectedCategoryOrTest::Category(CollectedTestCategory {
                name: "nested".to_string(),
                path: "/root/nested".to_string(),
                children: vec![test("test_match2", "/root/nested/match2.rs")],
            }),
        ],
    };

    let (matching, non_matching) =
        category.partition(|test: &CollectedTest<()>| test.name.contains("match"));

    // All tests match, so matching should have everything
    assert_eq!(matching.test_count(), 2);
    assert_eq!(matching.children.len(), 2);

    // Non-matching should be empty (no children, and nested category filtered out)
    assert_eq!(non_matching.test_count(), 0);
    assert_eq!(non_matching.children.len(), 0);
    assert!(non_matching.is_empty());
}

#[test]
fn test_into_flat_category() {
    // Create a nested category structure
    let category = CollectedTestCategory {
        name: "root".to_string(),
        path: "/root".to_string(),
        children: vec![
            test("test_1", "/root/test1.rs"),
            CollectedCategoryOrTest::Category(CollectedTestCategory {
                name: "nested1".to_string(),
                path: "/root/nested1".to_string(),
                children: vec![
                    test("test_2", "/root/nested1/test2.rs"),
                    CollectedCategoryOrTest::Category(CollectedTestCategory {
                        name: "deeply_nested".to_string(),
                        path: "/root/nested1/deeply".to_string(),
                        children: vec![test("test_3", "/root/nested1/deeply/test3.rs")],
                    }),
                ],
            }),
            CollectedCategoryOrTest::Category(CollectedTestCategory {
                name: "nested2".to_string(),
                path: "/root/nested2".to_string(),
                children: vec![test("test_4", "/root/nested2/test4.rs")],
            }),
        ],
    };

    let flattened = category.into_flat_category();

    // Should preserve root name and path
    assert_eq!(flattened.name, "root");
    assert_eq!(flattened.path, "/root".to_string());

    // Should have 4 direct children, all tests
    assert_eq!(flattened.children.len(), 4);
    assert_eq!(flattened.test_count(), 4);

    // All children should be tests, no categories
    for child in &flattened.children {
        assert!(matches!(child, CollectedCategoryOrTest::Test(_)));
    }

    // Verify test names are preserved
    let test_names: Vec<String> = flattened
        .children
        .iter()
        .filter_map(|child| match child {
            CollectedCategoryOrTest::Test(test) => Some(test.name.clone()),
            _ => None,
        })
        .collect();

    assert_eq!(test_names.len(), 4);
    assert!(test_names.contains(&"test_1".to_string()));
    assert!(test_names.contains(&"test_2".to_string()));
    assert!(test_names.contains(&"test_3".to_string()));
    assert!(test_names.contains(&"test_4".to_string()));
}

#[test]
fn test_count_recomputes_structurally() {
    let category = CollectedTestCategory {
        name: "root".to_string(),
        path: "/root".to_string(),
        children: vec![
            test("a", "/root/a.rs"),
            CollectedCategoryOrTest::Category(CollectedTestCategory {
                name: "sub".to_string(),
                path: "/root/sub".to_string(),
                children: vec![test("b", "/root/sub/b.rs"), test("c", "/root/sub/c.rs")],
            }),
            CollectedCategoryOrTest::Category(CollectedTestCategory {
                name: "empty".to_string(),
                path: "/root/empty".to_string(),
                children: vec![],
            }),
        ],
    };
    assert_eq!(category.test_count(), 3);
    assert!(!category.is_empty());

    let empty = CollectedTestCategory::<()> {
        name: "root".to_string(),
        path: "/root".to_string(),
        children: vec![],
    };
    assert_eq!(empty.test_count(), 0);
    assert!(empty.is_empty());
}

#[test]
fn test_filter_children_is_idempotent() {
    let build = || CollectedTestCategory {
        name: "root".to_string(),
        path: "/root".to_string(),
        children: vec![
            test("alpha", "/root/alpha.rs"),
            test("beta", "/root/beta.rs"),
            CollectedCategoryOrTest::Category(CollectedTestCategory {
                name: "sub".to_string(),
                path: "/root/sub".to_string(),
                children: vec![test("gamma_beta", "/root/sub/g.rs"), test("delta", "/root/sub/d.rs")],
            }),
        ],
    };

    let mut once = build();
    once.filter_children("beta");
    let mut twice = build();
    twice.filter_children("beta");
    twice.filter_children("beta");

    assert_eq!(once.test_count(), 2);
    assert_eq!(once.children.len(), 2);
    assert_eq!(twice.test_count(), once.test_count());
    assert_eq!(twice.children.len(), once.children.len());
    match (&once.children[1], &twice.children[1]) {
        (CollectedCategoryOrTest::Category(a), CollectedCategoryOrTest::Category(b)) => {
            assert_eq!(a.name, "sub");
            assert_eq!(b.name, "sub");
            assert_eq!(a.children.len(), 1);
            assert_eq!(b.children.len(), 1);
        }
        _ => panic!("Expected categories"),
    }
}

#[test]
fn test_filter_children_keeps_empty_root() {
    let mut category = CollectedTestCategory {
        name: "root".to_string(),
        path: "/root".to_string(),
        children: vec![test("only", "/root/only.rs")],
    };
    category.filter_children("nothing_matches_this");
    assert_eq!(category.name, "root");
    assert!(category.is_empty());
    assert_eq!(category.children.len(), 0);
}

#[test]
fn test_flatten_twice_is_flatten_once() {
    let category = CollectedTestCategory {
        name: "root".to_string(),
        path: "/root".to_string(),
        children: vec![
            CollectedCategoryOrTest::Category(CollectedTestCategory {
                name: "one".to_string(),
                path: "/root/one".to_string(),
                children: vec![test("x", "/root/one/x.rs")],
            }),
            test("y", "/root/y.rs"),
        ],
    };
    let flat = category.into_flat_category();
    let names: Vec<&str> = flat
        .children
        .iter()
        .map(|c| match c {
            CollectedCategoryOrTest::Test(t) => t.name.as_str(),
            _ => panic!("Expected test"),
        })
        .collect();
    assert_eq!(names, vec!["x", "y"]);
    let again = flat.into_flat_category();
    let names2: Vec<&str> = again
        .children
        .iter()
        .map(|c| match c {
            CollectedCategoryOrTest::Test(t) => t.name.as_str(),
            _ => panic!("Expected test"),
        })
        .collect();
    assert_eq!(names2, vec!["x", "y"]);
}
