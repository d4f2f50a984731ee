use zlob::gitignore::is_ignored_layered;
use zlob::gitignore::GitignoreLayer;
use zlob::{
    expand_tilde, tilde_prefix, zlob_has_wildcards, zlob_match_paths, zlob_walk, EntryKind,
    GitignoreRules, VEntry, VTree, ZlobFlags,
};

fn file(name: &str) -> VEntry {
    VEntry {
        name: name.to_string(),
        kind: EntryKind::Regular,
        readable: true,
        ignore: Vec::new(),
        children: Vec::new(),
    }
}

fn dir(name: &str, children: Vec<VEntry>) -> VEntry {
    VEntry {
        name: name.to_string(),
        kind: EntryKind::Directory,
        readable: true,
        ignore: Vec::new(),
        children,
    }
}

fn sample_tree() -> VTree {
    VTree {
        entries: vec![
            dir(
                "src",
                vec![
                    file("lib.rs"),
                    file("main.rs"),
                    dir("nested", vec![file("deep.rs")]),
                ],
            ),
            file("README.md"),
            file("a.log"),
            file("keep.log"),
            file("b.txt"),
            file(".hidden"),
        ],
        ignore: Vec::new(),
    }
}

#[test]
fn walk_literal_pattern_is_existence_test() {
    let tree = sample_tree();
    assert!(!zlob_has_wildcards("README.md", ZlobFlags::empty()));
    let hit = zlob_walk(&tree, "README.md", ZlobFlags::empty())
        .unwrap()
        .unwrap();
    assert_eq!(hit.len(), 1);
    assert_eq!(hit.get(0).unwrap(), "README.md");
    let miss = zlob_walk(&tree, "missing.md", ZlobFlags::empty()).unwrap();
    assert!(miss.is_none());
}

#[test]
fn has_wildcards_reports_metacharacters() {
    assert!(zlob_has_wildcards("*.rs", ZlobFlags::empty()));
    assert!(zlob_has_wildcards("a?.rs", ZlobFlags::empty()));
    assert!(zlob_has_wildcards("[ab].rs", ZlobFlags::empty()));
    assert!(!zlob_has_wildcards("plain.txt", ZlobFlags::empty()));
    // an escaped star is a literal
    assert!(!zlob_has_wildcards("\\*.rs", ZlobFlags::empty()));
    // a brace only counts when brace expansion is on
    assert!(!zlob_has_wildcards("{a,b}", ZlobFlags::empty()));
    assert!(zlob_has_wildcards("{a,b}", ZlobFlags::brace()));
}

#[test]
fn walk_star_matches_one_level_sorted() {
    let tree = sample_tree();
    let hit = zlob_walk(&tree, "*.log", ZlobFlags::empty()).unwrap().unwrap();
    assert_eq!(hit.len(), 2);
    // sorted byte order
    assert_eq!(hit.get(0).unwrap(), "a.log");
    assert_eq!(hit.get(1).unwrap(), "keep.log");
    assert!(hit.magchar());
}

#[test]
fn walk_doublestar_superset_of_degraded() {
    // a recursive ** accepts everything the degraded one-level ** accepts
    let tree = sample_tree();
    let degraded = zlob_walk(&tree, "**/*", ZlobFlags::empty()).unwrap().unwrap();
    let recursive = zlob_walk(
        &tree,
        "**/*",
        ZlobFlags::doublestar_recursive(),
    )
    .unwrap()
    .unwrap();
    let deg: Vec<String> = degraded.to_strings();
    let rec: Vec<String> = recursive.to_strings();
    for p in &deg {
        assert!(rec.contains(p), "recursive result must keep {}", p);
    }
    assert!(rec.len() >= deg.len());
    // and the recursive walk reaches deeper levels
    assert!(rec.contains(&"src/nested/deep.rs".to_string()));
    assert!(!deg.contains(&"src/nested/deep.rs".to_string()));
}

#[test]
fn walk_hidden_needs_period() {
    let tree = sample_tree();
    let plain = zlob_walk(&tree, "*", ZlobFlags::empty()).unwrap().unwrap();
    let shown: Vec<String> = plain.to_strings();
    assert!(!shown.contains(&".hidden".to_string()));
    let with_period = zlob_walk(&tree, "*", ZlobFlags::period()).unwrap().unwrap();
    let all: Vec<String> = with_period.to_strings();
    assert!(all.contains(&".hidden".to_string()));
}

#[test]
fn walk_onlydir_and_mark() {
    let tree = sample_tree();
    let dirs = zlob_walk(&tree, "*", ZlobFlags::onlydir().or(ZlobFlags::mark()))
        .unwrap()
        .unwrap();
    assert_eq!(dirs.len(), 1);
    assert_eq!(dirs.get(0).unwrap(), "src/");
}

#[test]
fn walk_nocheck_returns_pattern() {
    let tree = sample_tree();
    let r = zlob_walk(&tree, "nope-*.xyz", ZlobFlags::nocheck())
        .unwrap()
        .unwrap();
    assert_eq!(r.len(), 1);
    assert_eq!(r.get(0).unwrap(), "nope-*.xyz");
    // nomagic only applies without metacharacters
    let r2 = zlob_walk(&tree, "nope-*.xyz", ZlobFlags::nomagic()).unwrap();
    assert!(r2.is_none());
    let r3 = zlob_walk(&tree, "nope.xyz", ZlobFlags::nomagic())
        .unwrap()
        .unwrap();
    assert_eq!(r3.get(0).unwrap(), "nope.xyz");
}

#[test]
fn walk_err_aborts_on_unreadable() {
    let mut tree = sample_tree();
    tree.entries.push(VEntry {
        name: "locked".to_string(),
        kind: EntryKind::Directory,
        readable: false,
        ignore: Vec::new(),
        children: Vec::new(),
    });
    // skipped silently without the option
    assert!(zlob_walk(&tree, "*.log", ZlobFlags::empty()).is_ok());
    // aborted with it
    assert!(zlob_walk(&tree, "*.log", ZlobFlags::err()).is_err());
}

#[test]
fn walk_gitignore_rule_set() {
    // `*.log` then `!keep.log`: a.log excluded, keep.log and b.txt kept
    let mut tree = sample_tree();
    tree.ignore = vec!["*.log".to_string(), "!keep.log".to_string()];
    let r = zlob_walk(
        &tree,
        "*.{log,txt}",
        ZlobFlags::brace().or(ZlobFlags::gitignore()),
    )
    .unwrap()
    .unwrap();
    let got: Vec<String> = r.to_strings();
    assert!(!got.contains(&"a.log".to_string()));
    assert!(got.contains(&"keep.log".to_string()));
    assert!(got.contains(&"b.txt".to_string()));
}

#[test]
fn gitignore_last_match_wins() {
    let rules = GitignoreRules::parse(&vec![
        "*.log".to_string(),
        "!keep.log".to_string(),
        "# a comment".to_string(),
        "".to_string(),
    ]);
    assert!(rules.is_ignored("a.log", false));
    assert!(!rules.is_ignored("keep.log", false));
    assert!(!rules.is_ignored("b.txt", false));
    // a single-component rule matches at any depth
    assert!(rules.is_ignored("deep/dir/a.log", false));
}

#[test]
fn gitignore_dir_only_and_anchored() {
    let rules = GitignoreRules::parse(&vec!["build/".to_string(), "src/gen.rs".to_string()]);
    assert!(rules.is_ignored("build", true));
    assert!(!rules.is_ignored("build", false));
    assert!(rules.is_ignored("src/gen.rs", false));
    assert!(!rules.is_ignored("other/gen.rs", false));
}

#[test]
fn tilde_expansion_uses_resolved_home() {
    let f = ZlobFlags::tilde();
    assert_eq!(
        expand_tilde("~/notes/*.md", Some("/home/someone"), f).unwrap(),
        "/home/someone/notes/*.md"
    );
    assert_eq!(expand_tilde("plain/*.md", None, f).unwrap(), "plain/*.md");
    assert_eq!(tilde_prefix("~alice/x", f).unwrap(), "alice");
    assert_eq!(tilde_prefix("~/x", f).unwrap(), "");
    assert!(tilde_prefix("x/y", f).is_none());
    // unresolved: strict fails, plain leaves the pattern alone
    let strict = ZlobFlags::tilde().or(ZlobFlags::tilde_check());
    assert!(expand_tilde("~ghost/x", None, strict).is_err());
    assert_eq!(expand_tilde("~ghost/x", None, f).unwrap(), "~ghost/x");
}

#[test]
fn compile_rejects_malformed() {
    let paths = ["a.rs"];
    assert!(zlob_match_paths("a[bc", &paths, ZlobFlags::empty()).is_err());
    assert!(zlob_match_paths("a{b,c", &paths, ZlobFlags::brace()).is_err());
    // without brace expansion the brace is a literal, so no error
    assert!(zlob_match_paths("a{b,c", &paths, ZlobFlags::empty()).is_ok());
}

#[test]
fn match_paths_extglob_repeats() {
    let paths = ["ab.rs", "abab.rs", "x.rs", "a.rs"];
    let plus = zlob_match_paths("+(ab).rs", &paths, ZlobFlags::extglob())
        .unwrap()
        .unwrap();
    let got: Vec<&str> = plus.as_strs();
    assert_eq!(got, vec!["ab.rs", "abab.rs"]);
    let star = zlob_match_paths("a*(b).rs", &paths, ZlobFlags::extglob())
        .unwrap()
        .unwrap();
    let got2: Vec<&str> = star.as_strs();
    assert_eq!(got2, vec!["ab.rs", "a.rs"]);
}

#[test]
fn match_paths_class_ranges() {
    let paths = ["a1.c", "a5.c", "a9.c", "ax.c", "a-.c"];
    let m = zlob_match_paths("a[0-8-].c", &paths, ZlobFlags::empty())
        .unwrap()
        .unwrap();
    let got: Vec<&str> = m.as_strs();
    assert_eq!(got, vec!["a1.c", "a5.c", "a-.c"]);
    let neg = zlob_match_paths("a[!0-9].c", &paths, ZlobFlags::empty())
        .unwrap()
        .unwrap();
    let got2: Vec<&str> = neg.as_strs();
    assert_eq!(got2, vec!["ax.c", "a-.c"]);
}

#[test]
fn walk_nosort_keeps_visit_order() {
    let tree = VTree {
        entries: vec![file("b.rs"), file("a.rs")],
        ignore: Vec::new(),
    };
    let unsorted = zlob_walk(&tree, "*.rs", ZlobFlags::nosort()).unwrap().unwrap();
    assert_eq!(unsorted.get(0).unwrap(), "b.rs");
    assert_eq!(unsorted.get(1).unwrap(), "a.rs");
    let sorted = zlob_walk(&tree, "*.rs", ZlobFlags::empty()).unwrap().unwrap();
    assert_eq!(sorted.get(0).unwrap(), "a.rs");
    assert_eq!(sorted.get(1).unwrap(), "b.rs");
}

#[test]
fn zlob_iter_both_ends() {
    let tree = sample_tree();
    let hit = zlob_walk(&tree, "*.log", ZlobFlags::empty()).unwrap().unwrap();
    let mut it = hit.iter();
    assert_eq!(it.remaining(), 2);
    assert_eq!(it.next().unwrap(), "a.log");
    assert_eq!(it.next_back().unwrap(), "keep.log");
    assert!(it.next().is_none());
    let lens0 = hit.get_len(0).unwrap();
    assert_eq!(lens0, "a.log".len());
}

#[test]
fn compiling_twice_agrees_everywhere() {
    // the same pattern and flags always build the same matcher
    let paths = ["src/lib.rs", "src/main.rs", "README.md", ".git/config"];
    let flags = ZlobFlags::brace();
    let first = zlob_match_paths("{src,doc}/*.rs", &paths, flags)
        .unwrap()
        .unwrap();
    let second = zlob_match_paths("{src,doc}/*.rs", &paths, flags)
        .unwrap()
        .unwrap();
    assert_eq!(first.as_strs(), second.as_strs());
    assert_eq!(first.magchar(), second.magchar());
}

#[test]
fn gitignore_layered_deepest_wins() {
    // root ignores all logs; the sub directory re-includes its own
    let root = GitignoreRules::parse(&vec!["*.log".to_string()]);
    let sub = GitignoreRules::parse(&vec!["!debug.log".to_string()]);
    let layers = vec![
        GitignoreLayer { skip: 0, rules: root },
        GitignoreLayer { skip: "sub/".len(), rules: sub },
    ];
    assert!(is_ignored_layered(&layers, "a.log", false));
    assert!(is_ignored_layered(&layers, "sub/a.log", false));
    assert!(!is_ignored_layered(
        &layers,
        "sub/debug.log",
        false
    ));
    assert!(!is_ignored_layered(&layers, "b.txt", false));
}


#[test]
fn walk_gitignore_layers_per_directory() {
    // the root set ignores all logs; a subdirectory's own rule file
    // re-includes one of its logs
    let mut sub = dir("sub", vec![file("a.log"), file("debug.log"), file("c.txt")]);
    sub.ignore = vec!["!debug.log".to_string()];
    let tree = VTree {
        entries: vec![sub, file("top.log")],
        ignore: vec!["*.log".to_string()],
    };
    let r = zlob_walk(
        &tree,
        "**/*",
        ZlobFlags::doublestar_recursive().or(ZlobFlags::gitignore()),
    )
    .unwrap()
    .unwrap();
    let got: Vec<String> = r.to_strings();
    assert!(!got.contains(&"top.log".to_string()));
    assert!(!got.contains(&"sub/a.log".to_string()));
    assert!(got.contains(&"sub/debug.log".to_string()));
    assert!(got.contains(&"sub/c.txt".to_string()));
}
