use zlob::{zlob_match_paths, zlob_match_paths_at, ZlobFlags};

#[test]
fn test_match_paths_basic() {
    let paths = ["foo.rs", "bar.txt", "baz.rs"];
    let matches = zlob_match_paths("*.rs", &paths, ZlobFlags::empty())
        .unwrap()
        .unwrap();

    assert_eq!(matches.len(), 2);
    let results: Vec<&str> = matches.as_strs();
    assert!(results.contains(&"foo.rs"));
    assert!(results.contains(&"baz.rs"));
}

#[test]
fn test_match_paths_no_match() {
    let paths = ["foo.rs", "bar.rs"];
    let result = zlob_match_paths("*.txt", &paths, ZlobFlags::empty()).unwrap();
    assert!(result.is_none());
}

#[test]
fn test_match_paths_brace() {
    let paths = ["foo.rs", "bar.rs", "baz.rs"];
    let matches = zlob_match_paths("{foo,bar}.rs", &paths, ZlobFlags::brace())
        .unwrap()
        .unwrap();

    assert_eq!(matches.len(), 2);
    let results: Vec<&str> = matches.as_strs();
    assert!(results.contains(&"foo.rs"));
    assert!(results.contains(&"bar.rs"));
}

#[test]
fn test_match_paths_index() {
    let paths = ["a.rs", "b.rs", "c.rs"];
    let matches = zlob_match_paths("*.rs", &paths, ZlobFlags::empty())
        .unwrap()
        .unwrap();

    assert_eq!(matches.len(), 3);
    // Results should be in order
    assert!(matches.get(0).unwrap().ends_with(".rs"));
}

#[test]
fn test_match_paths_iterator() {
    let paths = ["x.rs", "y.rs", "z.txt"];
    let matches = zlob_match_paths("*.rs", &paths, ZlobFlags::empty())
        .unwrap()
        .unwrap();

    let mut iter = matches.iter();
    assert_eq!(iter.remaining(), 2);
    assert!(iter.next().is_some());
    assert_eq!(iter.remaining(), 1);
    assert!(iter.next().is_some());
    assert_eq!(iter.remaining(), 0);
    assert!(iter.next().is_none());
}

#[test]
fn test_match_paths_double_ended() {
    let paths = ["1.rs", "2.rs", "3.rs"];
    let matches = zlob_match_paths("*.rs", &paths, ZlobFlags::empty())
        .unwrap()
        .unwrap();

    let mut iter = matches.iter();
    let first = iter.next().unwrap();
    let last = iter.next_back().unwrap();
    assert_ne!(first, last);
}

#[test]
fn test_match_paths_empty_input() {
    let paths: [&str; 0] = [];
    let result = zlob_match_paths("*.rs", &paths, ZlobFlags::empty()).unwrap();
    assert!(result.is_none());
}

#[test]
fn test_match_paths_wildcard() {
    let paths = ["src/lib.rs", "src/main.rs", "test/test.rs"];
    let matches = zlob_match_paths("src/*.rs", &paths, ZlobFlags::empty())
        .unwrap()
        .unwrap();

    assert_eq!(matches.len(), 2);
}

#[test]
fn test_match_paths_question_mark() {
    let paths = ["a1.rs", "a2.rs", "ab.rs", "abc.rs"];
    let matches = zlob_match_paths("a?.rs", &paths, ZlobFlags::empty())
        .unwrap()
        .unwrap();

    assert_eq!(matches.len(), 3); // a1.rs, a2.rs, ab.rs
}

#[test]
fn test_match_paths_character_class() {
    let paths = ["a.rs", "b.rs", "c.rs", "d.rs"];
    let matches = zlob_match_paths("[ab].rs", &paths, ZlobFlags::empty())
        .unwrap()
        .unwrap();

    assert_eq!(matches.len(), 2);
    let results: Vec<&str> = matches.as_strs();
    assert!(results.contains(&"a.rs"));
    assert!(results.contains(&"b.rs"));
}

#[test]
fn test_match_paths_preserves_lifetime() {
    let paths = vec!["foo.rs".to_string(), "bar.txt".to_string()];
    let path_refs: Vec<&str> = paths.iter().map(|s| s.as_str()).collect();

    let matches = zlob_match_paths("*.rs", &path_refs, ZlobFlags::empty())
        .unwrap()
        .unwrap();

    // The matched paths should reference the original strings
    assert_eq!(matches.len(), 1);
    assert_eq!(matches.get(0).unwrap(), "foo.rs");
}

#[test]
fn test_match_paths_extglob_negation() {
    // Test !(pattern) - matches anything except the pattern
    let paths = ["app.js", "app.ts", "app.css", "app.html"];
    let matches = zlob_match_paths("app.!(js|ts)", &paths, ZlobFlags::extglob())
        .unwrap()
        .unwrap();

    assert_eq!(matches.len(), 2);
    let results: Vec<&str> = matches.as_strs();
    assert!(results.contains(&"app.css"));
    assert!(results.contains(&"app.html"));
    // Should NOT contain js or ts
    assert!(!results.contains(&"app.js"));
    assert!(!results.contains(&"app.ts"));
}

#[test]
fn test_match_paths_extglob_exactly_one() {
    // Test @(pattern) - matches exactly one of the alternatives
    let paths = ["foo.txt", "bar.txt", "baz.txt", "qux.txt"];
    let matches = zlob_match_paths("@(foo|bar).txt", &paths, ZlobFlags::extglob())
        .unwrap()
        .unwrap();

    assert_eq!(matches.len(), 2);
    let results: Vec<&str> = matches.as_strs();
    assert!(results.contains(&"foo.txt"));
    assert!(results.contains(&"bar.txt"));
    assert!(!results.contains(&"baz.txt"));
}

#[test]
fn test_match_paths_exact_order() {
    // list matching preserves input order and never sorts
    let paths = ["src/lib.rs", "src/main.rs", "README.md"];
    let matches = zlob_match_paths("*.rs", &paths, ZlobFlags::empty())
        .unwrap()
        .unwrap();

    assert_eq!(matches.len(), 2);
    assert_eq!(matches.get(0).unwrap(), "src/lib.rs");
    assert_eq!(matches.get(1).unwrap(), "src/main.rs");
    assert!(matches.get(2).is_none());
}

#[test]
fn test_match_paths_brace_exact_set() {
    let paths = ["foo.rs", "bar.rs", "baz.rs"];
    let matches = zlob_match_paths("{foo,bar}.rs", &paths, ZlobFlags::brace())
        .unwrap()
        .unwrap();

    let results: Vec<&str> = matches.as_strs();
    assert_eq!(results, vec!["foo.rs", "bar.rs"]);
}

#[test]
fn test_match_paths_at_200_random_rs_paths() {
    let base_path = "/workspace/my-project";

    let dirs = [
        "src",
        "src/core",
        "src/utils",
        "src/models",
        "src/handlers",
        "src/services",
        "src/middleware",
        "src/config",
        "src/db",
        "src/api",
        "tests",
        "tests/integration",
        "tests/unit",
        "benches",
        "examples",
        "lib",
        "lib/helpers",
        "lib/macros",
        "tools",
        "tools/codegen",
    ];

    let rs_names = [
        "main",
        "lib",
        "mod",
        "config",
        "utils",
        "helpers",
        "errors",
        "types",
        "schema",
        "handler",
        "service",
        "middleware",
        "router",
        "client",
        "server",
        "auth",
        "db",
        "cache",
        "logger",
        "parser",
    ];
    let non_rs_names = [
        "README.md",
        "Cargo.toml",
        "Cargo.lock",
        ".gitignore",
        "LICENSE",
        "config.toml",
        "setup.py",
        "index.js",
        "style.css",
        "data.json",
    ];

    let mut all_paths_owned: Vec<String> = Vec::with_capacity(200);

    // Generate 160 .rs files across various directories
    let mut count = 0;
    for (i, dir) in dirs.iter().enumerate() {
        for (j, name) in rs_names.iter().enumerate() {
            if count >= 160 {
                break;
            }
            // Add some variety with numbered suffixes
            let suffix = if (i + j) % 3 == 0 {
                format!("_{}", (i * 7 + j) % 100)
            } else {
                String::new()
            };
            all_paths_owned.push(format!("{}/{}/{}{}.rs", base_path, dir, name, suffix));
            count += 1;
        }
        if count >= 160 {
            break;
        }
    }

    // Fill remaining slots with non-.rs files to reach 200
    while all_paths_owned.len() < 200 {
        let idx = all_paths_owned.len() - 160;
        let dir = dirs[idx % dirs.len()];
        let name = non_rs_names[idx % non_rs_names.len()];
        all_paths_owned.push(format!("{}/{}/{}", base_path, dir, name));
    }

    assert_eq!(all_paths_owned.len(), 200);

    let all_paths: Vec<&str> = all_paths_owned.iter().map(|s| s.as_str()).collect();
    let expected_rs_count = all_paths.iter().filter(|p| p.ends_with(".rs")).count();
    assert!(expected_rs_count == 160,);

    let matches = zlob_match_paths_at(base_path, "**/*.rs", &all_paths, ZlobFlags::empty())
        .unwrap()
        .unwrap();

    assert_eq!(
        matches.len(),
        expected_rs_count,
        "Expected {} .rs matches, got {}",
        expected_rs_count,
        matches.len()
    );

    // Verify every matched path ends with .rs and starts with base_path
    let matched: Vec<&str> = matches.as_strs();
    for path in &matched {
        assert!(
            path.ends_with(".rs"),
            "Matched path should end with .rs: {}",
            path
        );
        assert!(
            path.starts_with(base_path),
            "Matched path should start with base_path: {}",
            path
        );
    }

    let non_rs_in_results = matched.iter().filter(|p| !p.ends_with(".rs")).count();
    assert_eq!(non_rs_in_results, 0, "Should not match non-.rs files");

    let matches_dot =
        zlob_match_paths_at(base_path, "./**/*.rs", &all_paths, ZlobFlags::empty())
            .unwrap()
            .unwrap();

    assert_eq!(
        matches.len(),
        matches_dot.len(),
        "./ prefix should give same results"
    );

    let no_match = zlob_match_paths_at(
        base_path,
        "nonexistent_dir/*.rs",
        &all_paths,
        ZlobFlags::empty(),
    )
    .unwrap();
    assert!(
        no_match.is_none(),
        "Non-existent dir pattern should return no matches"
    );

    let first_rs = all_paths.iter().find(|p| p.ends_with(".rs")).unwrap();
    let rel_first = &first_rs[base_path.len() + 1..];
    let literal_match =
        zlob_match_paths_at(base_path, rel_first, &all_paths, ZlobFlags::empty())
            .unwrap()
            .unwrap();
    assert_eq!(
        literal_match.len(),
        1,
        "Literal pattern should match exactly one path"
    );
    assert_eq!(literal_match.get(0).unwrap(), *first_rs);
}
