//! Line counting for a single file or for the files found under a directory.
//!
//! The crate holds the decisions of the tool: how command-line tokens become a
//! [`Config`], which discovered paths survive the extension filter, how text is
//! counted and how each result line is rendered. Reading files, listing
//! directories and printing are left to the caller, who feeds the outcomes back
//! in as plain values.

pub mod config;
pub mod extensions;
pub mod help;
pub mod lines;
pub mod output;
pub mod paths;
pub mod run;
pub mod text;
pub mod traversal;
pub mod trusted;
pub mod vocabulary;

pub use config::{get_list_from_args_after_option, Config, ConfigError, PathKind};
pub use extensions::parse_extension_list;
pub use help::help;
pub use lines::{count_lines, count_lines_of_file, IoError};
pub use output::{format_line, FORMAT};
pub use paths::{filter_paths, filter_paths_with, CandidatePath, FilterPolicy};
pub use run::{Action, Event, Reaction, RunState, Runner};
pub use traversal::{DirEntry, Listing, Status, Traversal};
pub use vocabulary::{Flag, OptionEntry, Vocabulary};
