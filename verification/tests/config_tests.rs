use projct_core::config::{Args, Config};
use projct_core::file_utils::FileUtils;

fn no_args() -> Args {
    Args {
        command_or_path: None,
        path: None,
        max_depth: None,
        max_size: 100000,
        line_numbers: false,
        no_gitignore: false,
        show_ignored: false,
        show_binary: false,
        output: None,
        config: "projct.toml".to_string(),
    }
}

#[test]
fn default_config_values() {
    let c = Config::default_config();
    assert_eq!(c.general.path, ".".to_string());
    assert!(c.general.max_depth.is_none());
    assert!(c.general.use_gitignore);
    assert!(!c.general.show_ignored);
    assert!(!c.general.show_binary);
    assert_eq!(c.output.filename, "output.txt".to_string());
    assert_eq!(c.output.max_file_size, 100000);
    assert!(!c.output.show_line_numbers);
    assert!(c.filters.include_patterns.is_empty());
    assert!(c.filters.exclude_patterns.is_empty());
}

#[test]
fn args_override_base_config() {
    let base = Config::default_config();
    let mut args = no_args();
    args.max_depth = Some(3);
    args.no_gitignore = true;
    args.show_ignored = true;
    args.show_binary = true;
    args.output = Some("tree.txt".to_string());
    args.max_size = 500;
    args.line_numbers = true;
    let c = Config::new(base, &args, "src".to_string());
    assert_eq!(c.general.path, "src".to_string());
    assert_eq!(c.general.max_depth, Some(3));
    assert!(!c.general.use_gitignore);
    assert!(c.general.show_ignored);
    assert!(c.general.show_binary);
    assert_eq!(c.output.filename, "tree.txt".to_string());
    assert_eq!(c.output.max_file_size, 500);
    assert!(c.output.show_line_numbers);
}

#[test]
fn absent_args_keep_base_values() {
    let base = Config::default_config();
    let c = Config::new(base, &no_args(), ".".to_string());
    assert_eq!(c.general.path, ".".to_string());
    assert!(c.general.max_depth.is_none());
    assert!(c.general.use_gitignore);
    assert_eq!(c.output.filename, "output.txt".to_string());
    assert_eq!(c.output.max_file_size, 100000);
    assert!(!c.output.show_line_numbers);
}

#[test]
fn sentinel_max_size_is_not_an_override() {
    let mut base = Config::default_config();
    base.output.max_file_size = 42;
    let c = Config::new(base, &no_args(), ".".to_string());
    assert_eq!(c.output.max_file_size, 42);
}

#[test]
fn null_byte_marks_chunk_binary() {
    assert!(FileUtils::chunk_has_null(&vec![104u8, 0u8, 105u8]));
    assert!(!FileUtils::chunk_has_null(&vec![104u8, 101u8, 108u8, 108u8, 111u8]));
    assert!(!FileUtils::chunk_has_null(&Vec::new()));
}
