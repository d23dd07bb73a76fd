//! Variable substitution for Markdown notes.
//!
//! A note may declare variables in comment lines of the form
//! `<!-- @var name: value -->` and use them, and the global variables of
//! the application, through placeholders of the form `{{name}}`.
//!
//! - [`declarations`] finds the declarations of a document and takes their
//!   lines out of it.
//! - [`variable_map`] is the mapping from names to values that holds the
//!   variables.
//! - [`substitution`] replaces placeholders, a declaration taking
//!   precedence over a global variable.
//! - [`variable_processor`] is the store of global variables with the
//!   operations on documents, and the merging and listing of variable
//!   sets for import and export.
//! - [`commands`] expands a document after binding further global
//!   variables.
//! - [`file_operations`] and [`file_association`] hold the rules on the
//!   files that the editor opens.
//! - [`text`] and [`types`] hold what the others share.
//!
//! The library reads no file, holds no global state and takes no lock: the
//! store is a value that its owner passes in.

pub mod commands;
pub mod declarations;
pub mod file_association;
pub mod file_operations;
pub mod substitution;
pub mod text;
pub mod types;
pub mod variable_map;
pub mod variable_processor;

pub use commands::{get_expanded_markdown, process_markdown};
pub use file_association::{
    buffer_file_path, get_pending_file_paths, handle_open_file_event, is_frontend_ready,
    set_frontend_ready, set_frontend_ready_command, FileAssociation,
};
pub use file_operations::{
    calculate_file_hash, check_file_size, check_file_type, is_large_file,
    is_supported_extension, MAX_FILE_SIZE,
};
pub use types::{FileHashInfo, OpenFileEvent, Variable, VariableSet};
pub use variable_map::VariableMap;
pub use variable_processor::{ParseError, VariableProcessor};
