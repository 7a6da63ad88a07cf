use minigit::ignore::{
    load_ignore_patterns, parse_ignore_patterns, path_extension, should_ignore, walk_step,
    EntryKind, WalkStep,
};
use std::path::Path;

fn patterns(list: &[&str]) -> Vec<String> {
    list.iter().map(|p| p.to_string()).collect()
}

#[test]
fn test_should_ignore() {
    let path = "test.txt";
    let patterns = vec!["*.txt".to_string()];
    assert!(should_ignore(path, &patterns));

    let path = "test.rs";
    assert!(!should_ignore(path, &patterns));
}

#[test]
fn test_load_ignore_patterns() {
    let patterns = load_ignore_patterns(Some("*.log\n# Comment\n\n*.tmp\n"));
    assert_eq!(patterns, vec!["*.log", "*.tmp"]);
}

#[test]
fn test_walk_dir() {
    assert_eq!(walk_step("dir/test.txt", EntryKind::File, &[]), WalkStep::Collect);
    assert_eq!(walk_step("dir/sub", EntryKind::Directory, &[]), WalkStep::Descend);
    assert_eq!(walk_step("dir/socket", EntryKind::Other, &[]), WalkStep::Skip);
}

#[test]
fn extension_pattern() {
    let p = patterns(&["*.log"]);
    assert!(should_ignore("a/b.log", &p));
    assert!(!should_ignore("a/b.txt", &p));
    assert!(!should_ignore("a/log", &p));
    assert!(!should_ignore("a/b.log.txt", &p));
    assert!(!should_ignore("a.log/b", &p));
}

#[test]
fn extension_is_taken_from_the_path() {
    let p = patterns(&["*.gz"]);
    assert!(should_ignore("x.tar.gz", &p));
    assert!(!should_ignore(".gz", &p));
    assert!(!should_ignore("gz", &p));
    assert!(!should_ignore("x.gz/y", &p));
}

#[test]
fn directory_pattern() {
    let p = patterns(&["build/"]);
    assert!(should_ignore("build", &p));
    assert!(should_ignore("src/build/x.rs", &p));
    assert!(should_ignore("./build/out.o", &p));
    assert!(!should_ignore("src/main.rs", &p));
    let q = patterns(&["target///"]);
    assert!(should_ignore("a/target/b", &q));
    assert!(!should_ignore("a/targe/b", &q));
}

#[test]
fn plain_pattern_matches_anywhere() {
    let p = patterns(&["secret"]);
    assert!(should_ignore("a/secret.txt", &p));
    assert!(should_ignore("my_secrets/x", &p));
    assert!(!should_ignore("a/public.txt", &p));
}

#[test]
fn repository_files_are_always_ignored() {
    assert!(should_ignore(".minigit", &[]));
    assert!(should_ignore("./.minigit/objects/ab", &[]));
    assert!(should_ignore(".minigitignore", &[]));
    assert!(should_ignore(".minigitingore", &[]));
    assert!(!should_ignore("minigit.rs", &[]));
}

#[test]
fn no_patterns_ignore_nothing_else() {
    assert!(!should_ignore("a/b.txt", &[]));
    assert!(!should_ignore("", &[]));
}

#[test]
fn repeated_star_dot_is_dropped() {
    let p = patterns(&["*.*.rs"]);
    assert!(should_ignore("a.rs", &p));
    assert!(should_ignore("dir/a.b.rs", &p));
    assert!(!should_ignore("a.r", &p));
    assert!(!should_ignore("a.rss", &p));
    assert!(!should_ignore("rs", &p));
}

#[test]
fn bare_star_dot_asks_for_an_empty_extension() {
    let p = patterns(&["*."]);
    assert!(should_ignore("name.", &p));
    assert!(!should_ignore("name", &p));
    assert!(!should_ignore("name.x", &p));
}

#[test]
fn extension_of_a_path() {
    assert_eq!(path_extension("a/b.log"), Some("log".to_string()));
    assert_eq!(path_extension("x.tar.gz"), Some("gz".to_string()));
    assert_eq!(path_extension("a.b/c"), None);
    assert_eq!(path_extension(".hidden"), None);
    assert_eq!(path_extension(".hidden.txt"), Some("txt".to_string()));
    assert_eq!(path_extension("name."), Some("".to_string()));
    assert_eq!(path_extension("dir/name.rs/"), Some("rs".to_string()));
    assert_eq!(path_extension("dir/name.rs/."), Some("rs".to_string()));
    assert_eq!(path_extension("dir/name.rs/.."), None);
    assert_eq!(path_extension(""), None);
}

#[test]
fn extension_agrees_with_the_standard_library() {
    let pieces = ["", ".", "..", "/", "a", "a.b", ".a", "a.", "a..", "...", "a.b.c", "d\u{e9}.t\u{e9}"];
    let mut paths: Vec<String> = Vec::new();
    for x in pieces {
        paths.push(x.to_string());
        for y in pieces {
            paths.push(format!("{}/{}", x, y));
            paths.push(format!("{}{}", x, y));
            for z in pieces {
                paths.push(format!("{}/{}/{}", x, y, z));
                paths.push(format!("{}//{}/{}/", x, y, z));
            }
        }
    }
    for path in paths {
        let expected = match Path::new(&path).extension() {
            Some(e) => e.to_str().map(|t| t.to_string()),
            None => None,
        };
        assert_eq!(path_extension(&path), expected);
    }
}

#[test]
fn later_pattern_may_match() {
    let p = patterns(&["*.log", "tmp/", "cache"]);
    assert!(should_ignore("x/cache_1", &p));
    assert!(should_ignore("tmp/x", &p));
    assert!(!should_ignore("x/y.rs", &p));
}

#[test]
fn ignored_entries_are_skipped() {
    let p = patterns(&["*.log", "build/"]);
    assert_eq!(walk_step("a/b.log", EntryKind::File, &p), WalkStep::Skip);
    assert_eq!(walk_step("build", EntryKind::Directory, &p), WalkStep::Skip);
    assert_eq!(walk_step(".minigit", EntryKind::Directory, &p), WalkStep::Skip);
    assert_eq!(walk_step("a/b.txt", EntryKind::File, &p), WalkStep::Collect);
    assert_eq!(walk_step("a/b", EntryKind::Directory, &p), WalkStep::Descend);
    assert_eq!(walk_step("a/b.log", EntryKind::Other, &p), WalkStep::Skip);
}

#[test]
fn missing_pattern_file_gives_no_patterns() {
    assert_eq!(load_ignore_patterns(None), Vec::<String>::new());
    assert_eq!(load_ignore_patterns(Some("")), Vec::<String>::new());
}

#[test]
fn pattern_lines_are_trimmed() {
    assert_eq!(
        parse_ignore_patterns("  *.log  \r\n\t\n   \nbuild/\n #not a comment\n#comment\nlast"),
        vec!["*.log", "build/", "#not a comment", "last"]
    );
    assert_eq!(parse_ignore_patterns("a b\u{a0}\n"), vec!["a b"]);
    assert_eq!(parse_ignore_patterns("\n\n\n"), Vec::<String>::new());
}
