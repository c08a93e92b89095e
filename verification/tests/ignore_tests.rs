use projct_core::gitignore::{GitignoreParser, HierarchicalGitignoreManager, IgnoreFileData};

fn strings(v: &[&str]) -> Vec<String> {
    v.iter().map(|s| s.to_string()).collect()
}

fn manager(files: &[(&str, &[&str])]) -> HierarchicalGitignoreManager {
    let data: Vec<IgnoreFileData> = files
        .iter()
        .map(|(d, lines)| IgnoreFileData { dir: d.to_string(), lines: strings(lines) })
        .collect();
    HierarchicalGitignoreManager::new("root", &data)
}

#[test]
fn log_patterns_with_negation() {
    let m = manager(&[("root", &["*.log", "!important.log"])]);
    assert!(!m.should_ignore("root/important.log", false));
    assert!(m.should_ignore("root/debug.log", false));
}

#[test]
fn git_directory_builtin_is_directory_only() {
    let p = GitignoreParser::new("root", &Vec::new());
    assert!(p.should_ignore("root/.git", true, false));
    assert!(p.should_ignore("root/a/b/.git", true, false));
    assert!(!p.should_ignore("root/.git", false, false));
    assert!(!p.should_ignore("root/a/b/.git", false, false));
}

#[test]
fn git_marker_files_are_builtin() {
    let m = manager(&[("root", &[])]);
    assert!(m.should_ignore("root/.gitignore", false));
    assert!(m.should_ignore("root/sub/.gitattributes", false));
    assert!(!m.should_ignore("root/readme.md", false));
}

#[test]
fn directory_only_pattern_skips_files() {
    let m = manager(&[("root", &["build/"])]);
    assert!(m.should_ignore("root/build", true));
    assert!(!m.should_ignore("root/build.txt", false));
}

#[test]
fn nested_negation_keeps_file_not_ignored() {
    let m = manager(&[("root", &["build/"]), ("root/build", &["!keep.txt"])]);
    assert!(m.should_ignore("root/build", true));
    assert!(!m.should_ignore("root/build/keep.txt", false));
}

#[test]
fn deeper_scope_negation_overrides_ancestor() {
    let m = manager(&[("root", &["*.log"]), ("root/sub", &["!keep.log"])]);
    assert!(!m.should_ignore("root/sub/keep.log", false));
    assert!(m.should_ignore("root/sub/other.log", false));
    assert!(m.should_ignore("root/top.log", false));
}

#[test]
fn discovery_order_does_not_change_verdicts() {
    let a = manager(&[("root", &["*.log"]), ("root/sub", &["!keep.log"])]);
    let b = manager(&[("root/sub", &["!keep.log"]), ("root", &["*.log"])]);
    for (path, is_dir) in [
        ("root/sub/keep.log", false),
        ("root/sub/other.log", false),
        ("root/top.log", false),
        ("root/sub", true),
        ("root/keep.log", false),
    ] {
        assert_eq!(a.should_ignore(path, is_dir), b.should_ignore(path, is_dir));
    }
}

#[test]
fn anchored_pattern_matches_at_scope_root() {
    let m = manager(&[("root", &["/only_root.txt"])]);
    assert!(m.should_ignore("root/only_root.txt", false));
    assert!(!m.should_ignore("root/another.txt", false));
}

#[test]
fn star_star_ignores_everything_beneath() {
    let m = manager(&[("root", &["**"])]);
    assert!(m.should_ignore("root/a.txt", false));
    assert!(m.should_ignore("root/sub", true));
    assert!(m.should_ignore("root/sub/deep/file.c", false));
}

#[test]
fn double_star_collapses_to_single_star() {
    let m = manager(&[("root", &["a**b"])]);
    assert!(m.should_ignore("root/axxb", false));
    assert!(m.should_ignore("root/ab", false));
    assert!(!m.should_ignore("root/acd", false));
}

#[test]
fn glob_metacharacters_are_escaped_to_literals() {
    let m = manager(&[("root", &["file?.txt"])]);
    assert!(m.should_ignore("root/file?.txt", false));
    assert!(!m.should_ignore("root/file1.txt", false));
}

#[test]
fn blank_and_comment_lines_are_skipped() {
    let m = manager(&[("root", &["  # comment", "", "   ", "  *.tmp  "])]);
    assert!(m.should_ignore("root/x.tmp", false));
    assert!(!m.should_ignore("root/x.txt", false));
}

#[test]
fn escaped_space_becomes_literal_space() {
    let m = manager(&[("root", &["foo\\ bar"])]);
    assert!(m.should_ignore("root/foo bar", false));
    assert!(!m.should_ignore("root/foobar", false));
}

#[test]
fn negation_alone_leaves_path_not_ignored() {
    let m = manager(&[("root", &["!x.txt"])]);
    assert!(!m.should_ignore("root/x.txt", false));
    assert!(!m.should_ignore("root/y.txt", false));
}

#[test]
fn paths_outside_scope_are_untouched() {
    let m = manager(&[("root/sub", &["*.log"])]);
    assert!(!m.should_ignore("root/a.log", false));
    assert!(m.should_ignore("root/sub/a.log", false));
}

#[test]
fn no_scopes_means_nothing_ignored() {
    let m = manager(&[]);
    assert!(!m.should_ignore("root/a.log", false));
    assert!(!m.should_ignore("root", true));
}

#[test]
fn unanchored_pattern_matches_any_segment() {
    let m = manager(&[("root", &["target"])]);
    assert!(m.should_ignore("root/target", true));
    assert!(m.should_ignore("root/a/target", true));
    assert!(m.should_ignore("root/a/target/debug.rs", false));
}

#[test]
fn scope_inherited_verdict_passes_through() {
    let p = GitignoreParser::new("root", &strings(&["*.log"]));
    assert!(p.should_ignore("elsewhere/file.log", false, true));
    assert!(!p.should_ignore("elsewhere/file.log", false, false));
    assert!(p.should_ignore("root/file.log", false, false));
}

#[test]
fn relative_paths_climbing_out_are_untouched() {
    let m = manager(&[("root", &["**"])]);
    assert!(!m.should_ignore("root/../elsewhere.txt", false));
    assert!(m.should_ignore("root/inside.txt", false));
}

#[test]
fn star_star_ignores_the_owning_directory_itself() {
    let m = manager(&[("root/sub", &["**"])]);
    assert!(m.should_ignore("root/sub", true));
    assert!(!m.should_ignore("root", true));
}
