use projct_core::config::{Config, Filters, General, Output};
use projct_core::generator::{FsEntry, FsTree, OutputWriter, ProjectTreeGenerator};
use projct_core::gitignore::{HierarchicalGitignoreManager, IgnoreFileData};

fn cfg() -> Config {
    Config {
        general: General {
            path: "root".to_string(),
            max_depth: None,
            use_gitignore: true,
            show_ignored: false,
            show_binary: false,
        },
        output: Output {
            filename: "output.txt".to_string(),
            max_file_size: 100000,
            show_line_numbers: false,
        },
        filters: Filters { include_patterns: Vec::new(), exclude_patterns: Vec::new() },
    }
}

fn file(name: &str, is_text: bool) -> FsEntry {
    FsEntry { name: name.to_string(), tree: FsTree::File { is_text } }
}

fn dir(name: &str, entries: Vec<FsEntry>) -> FsEntry {
    FsEntry { name: name.to_string(), tree: FsTree::Dir { readable: true, entries } }
}

#[test]
fn depth_zero_emits_root_line_only() {
    let mut c = cfg();
    c.general.max_depth = Some(0);
    let w = OutputWriter { config: &c, gitignore_manager: None };
    let tree = FsTree::Dir {
        readable: true,
        entries: vec![dir("sub", vec![file("inner.txt", true)]), dir("other", vec![])],
    };
    let (lines, files) = w.write_tree_and_get_files("root", &tree);
    assert_eq!(lines, vec!["root/".to_string()]);
    assert!(files.is_empty());
}

#[test]
fn binary_files_are_skipped_and_order_is_dirs_then_alpha() {
    let c = cfg();
    let w = OutputWriter { config: &c, gitignore_manager: None };
    let tree = FsTree::Dir {
        readable: true,
        entries: vec![
            file("b.bin", false),
            dir("sub", vec![file("inner.txt", true)]),
            file("a.txt", true),
        ],
    };
    let (lines, files) = w.write_tree_and_get_files("root", &tree);
    assert_eq!(
        lines,
        vec![
            "root/".to_string(),
            "├── sub/".to_string(),
            "│   └── inner.txt".to_string(),
            "├── a.txt".to_string(),
        ]
    );
    assert_eq!(files, vec!["root/sub/inner.txt".to_string(), "root/a.txt".to_string()]);
}

#[test]
fn show_binary_lists_binary_files() {
    let mut c = cfg();
    c.general.show_binary = true;
    let w = OutputWriter { config: &c, gitignore_manager: None };
    let tree = FsTree::Dir { readable: true, entries: vec![file("b.bin", false)] };
    let (lines, files) = w.write_tree_and_get_files("root", &tree);
    assert_eq!(lines, vec!["root/".to_string(), "└── b.bin".to_string()]);
    assert_eq!(files, vec!["root/b.bin".to_string()]);
}

#[test]
fn output_file_is_excluded_everywhere() {
    let c = cfg();
    let w = OutputWriter { config: &c, gitignore_manager: None };
    let tree = FsTree::Dir {
        readable: true,
        entries: vec![
            file("output.txt", true),
            file("kept.txt", true),
            dir("sub", vec![file("output.txt", true), file("also.txt", true)]),
        ],
    };
    let (lines, files) = w.write_tree_and_get_files("root", &tree);
    assert_eq!(
        lines,
        vec![
            "root/".to_string(),
            "├── sub/".to_string(),
            "│   ├── also.txt".to_string(),
            "├── kept.txt".to_string(),
        ]
    );
    assert_eq!(files, vec!["root/sub/also.txt".to_string(), "root/kept.txt".to_string()]);
}

#[test]
fn ignored_entries_are_skipped_entirely() {
    let c = cfg();
    let data = vec![IgnoreFileData { dir: "root".to_string(), lines: vec!["*.log".to_string()] }];
    let m = HierarchicalGitignoreManager::new("root", &data);
    let w = OutputWriter { config: &c, gitignore_manager: Some(&m) };
    let tree = FsTree::Dir {
        readable: true,
        entries: vec![file("debug.log", true), file("kept.txt", true)],
    };
    let (lines, files) = w.write_tree_and_get_files("root", &tree);
    assert_eq!(lines, vec!["root/".to_string(), "└── kept.txt".to_string()]);
    assert_eq!(files, vec!["root/kept.txt".to_string()]);
}

#[test]
fn show_ignored_lists_ignored_entries() {
    let mut c = cfg();
    c.general.show_ignored = true;
    let data = vec![IgnoreFileData { dir: "root".to_string(), lines: vec!["*.log".to_string()] }];
    let m = HierarchicalGitignoreManager::new("root", &data);
    let w = OutputWriter { config: &c, gitignore_manager: Some(&m) };
    let tree = FsTree::Dir { readable: true, entries: vec![file("debug.log", true)] };
    let (lines, files) = w.write_tree_and_get_files("root", &tree);
    assert_eq!(lines, vec!["root/".to_string(), "└── debug.log".to_string()]);
    assert_eq!(files, vec!["root/debug.log".to_string()]);
}

#[test]
fn unreadable_directory_prints_denied_leaf() {
    let c = cfg();
    let w = OutputWriter { config: &c, gitignore_manager: None };
    let tree = FsTree::Dir {
        readable: true,
        entries: vec![FsEntry {
            name: "locked".to_string(),
            tree: FsTree::Dir { readable: false, entries: vec![] },
        }],
    };
    let (lines, files) = w.write_tree_and_get_files("root", &tree);
    assert_eq!(
        lines,
        vec![
            "root/".to_string(),
            "└── locked/".to_string(),
            "    └── [Permission Denied]".to_string(),
        ]
    );
    assert!(files.is_empty());
}

#[test]
fn max_depth_one_stops_below_first_level() {
    let mut c = cfg();
    c.general.max_depth = Some(1);
    let w = OutputWriter { config: &c, gitignore_manager: None };
    let tree = FsTree::Dir {
        readable: true,
        entries: vec![dir("sub", vec![file("deep.txt", true)]), file("top.txt", true)],
    };
    let (lines, files) = w.write_tree_and_get_files("root", &tree);
    assert_eq!(
        lines,
        vec!["root/".to_string(), "├── sub/".to_string(), "└── top.txt".to_string()]
    );
    assert_eq!(files, vec!["root/top.txt".to_string()]);
}

#[test]
fn filter_file_list_applies_include_then_exclude() {
    let mut c = cfg();
    c.filters.include_patterns = vec!["*.rs".to_string(), "*.txt".to_string()];
    c.filters.exclude_patterns = vec!["b*".to_string()];
    let g = ProjectTreeGenerator::new(c, &Vec::new());
    let out = g.filter_file_list(vec![
        "root/a.rs".to_string(),
        "root/b.rs".to_string(),
        "root/c.txt".to_string(),
        "root/d.log".to_string(),
    ]);
    assert_eq!(out, vec!["root/a.rs".to_string(), "root/c.txt".to_string()]);
}

#[test]
fn filter_file_list_without_patterns_keeps_everything() {
    let g = ProjectTreeGenerator::new(cfg(), &Vec::new());
    let fl = vec!["root/a.rs".to_string(), "root/b.txt".to_string()];
    assert_eq!(g.filter_file_list(fl.clone()), fl);
}

#[test]
fn generator_new_respects_use_gitignore() {
    let mut c = cfg();
    c.general.use_gitignore = false;
    let g = ProjectTreeGenerator::new(c, &Vec::new());
    assert!(g.gitignore_manager.is_none());
    let g2 = ProjectTreeGenerator::new(cfg(), &Vec::new());
    assert!(g2.gitignore_manager.is_some());
}
