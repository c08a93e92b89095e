pub mod chars;
pub mod globx;
pub mod gitignore;
pub mod config;
pub mod file_utils;
pub mod generator;

pub use config::{Args, Config, Filters, General, Output};
pub use file_utils::FileUtils;
pub use generator::{FsEntry, FsTree, OutputWriter, ProjectTreeGenerator};
pub use gitignore::{GitPattern, GitignoreParser, HierarchicalGitignoreManager, IgnoreFileData};
