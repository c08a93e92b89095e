//! Run configuration: the resolved settings, and the command-line overrides
//! folded over a loaded base configuration.

use vstd::prelude::*;

verus! {

/// The sentinel default of the `max_size` command-line option: a value equal
/// to it means the option was not given.
pub const DEFAULT_MAX_FILE_SIZE: u64 = 100000;

#[derive(Clone, Debug)]
pub struct General {
    pub path: String,
    pub max_depth: Option<u32>,
    pub use_gitignore: bool,
    pub show_ignored: bool,
    pub show_binary: bool,
}

#[derive(Clone, Debug)]
pub struct Output {
    pub filename: String,
    pub max_file_size: u64,
    pub show_line_numbers: bool,
}

#[derive(Clone, Debug)]
pub struct Filters {
    pub include_patterns: Vec<String>,
    pub exclude_patterns: Vec<String>,
}

#[derive(Clone, Debug)]
pub struct Config {
    pub general: General,
    pub output: Output,
    pub filters: Filters,
}

/// The command-line surface, as plain values.
#[derive(Clone, Debug)]
pub struct Args {
    pub command_or_path: Option<String>,
    pub path: Option<String>,
    pub max_depth: Option<u32>,
    pub max_size: u64,
    pub line_numbers: bool,
    pub no_gitignore: bool,
    pub show_ignored: bool,
    pub show_binary: bool,
    pub output: Option<String>,
    pub config: String,
}

impl Config {
    /// Folds the command-line overrides over a loaded base configuration:
    /// the traversal path is always taken from `effective_path`, each flag
    /// only strengthens its base value, and `max_size` counts as an override
    /// only when it differs from its sentinel default.
    pub fn new(base: Config, args: &Args, effective_path: String) -> (r: Config)
        ensures
            r.general.path@ == effective_path@,
            r.general.max_depth == if args.max_depth is Some {
                args.max_depth
            } else {
                base.general.max_depth
            },
            r.general.use_gitignore == (base.general.use_gitignore && !args.no_gitignore),
            r.general.show_ignored == (base.general.show_ignored || args.show_ignored),
            r.general.show_binary == (base.general.show_binary || args.show_binary),
            args.output matches Some(o) ==> r.output.filename@ == o@,
            args.output is None ==> r.output.filename@ == base.output.filename@,
            r.output.max_file_size == if args.max_size != DEFAULT_MAX_FILE_SIZE {
                args.max_size
            } else {
                base.output.max_file_size
            },
            r.output.show_line_numbers == (base.output.show_line_numbers || args.line_numbers),
            r.filters == base.filters,
    {
        let mut config = base;
        config.general.path = effective_path;
        if let Some(md) = args.max_depth {
            config.general.max_depth = Some(md);
        }
        if args.no_gitignore {
            config.general.use_gitignore = false;
        }
        if args.show_ignored {
            config.general.show_ignored = true;
        }
        if args.show_binary {
            config.general.show_binary = true;
        }
        if let Some(o) = &args.output {
            config.output.filename = o.clone();
        }
        if args.max_size != DEFAULT_MAX_FILE_SIZE {
            config.output.max_file_size = args.max_size;
        }
        if args.line_numbers {
            config.output.show_line_numbers = true;
        }
        config
    }

    /// The configuration used when no configuration file is present.
    pub fn default_config() -> (r: Config)
        ensures
            r.general.path@ == "."@,
            r.general.max_depth is None,
            r.general.use_gitignore,
            !r.general.show_ignored,
            !r.general.show_binary,
            r.output.filename@ == "output.txt"@,
            r.output.max_file_size == DEFAULT_MAX_FILE_SIZE,
            !r.output.show_line_numbers,
            r.filters.include_patterns@.len() == 0,
            r.filters.exclude_patterns@.len() == 0,
    {
        Config {
            general: General {
                path: ".".to_owned(),
                max_depth: None,
                use_gitignore: true,
                show_ignored: false,
                show_binary: false,
            },
            output: Output {
                filename: "output.txt".to_owned(),
                max_file_size: DEFAULT_MAX_FILE_SIZE,
                show_line_numbers: false,
            },
            filters: Filters { include_patterns: Vec::new(), exclude_patterns: Vec::new() },
        }
    }
}

} // verus!
