//! Verified parsers and workspace tools for untrusted input: the frontmatter of
//! skill files, ZIP archives, the search of files for lines, and typed commands
//! on a workspace.
//!
//! Nothing here touches a file. What needs the file system is a run that asks for
//! one thing at a time and is resumed with the reply; what it may ask for, and
//! what it makes of each reply, is stated and proved.

pub mod bounded;
pub mod change_laws;
pub mod effect_laws;
pub mod errors;
pub mod fs;
pub mod grep;
pub mod grep_laws;
pub mod inflate;
pub mod list_laws;
pub mod listing;
pub mod listing_laws;
pub mod message_laws;
pub mod mutation;
pub mod order;
pub mod path_laws;
pub mod paths;
pub mod pattern;
pub mod reading;
pub mod refusal_laws;
pub mod resolve;
pub mod run_laws;
pub mod search;
pub mod search_laws;
pub mod skill_laws;
pub mod skills;
pub mod text;
pub mod text_laws;
pub mod toolbox;
pub mod transfer;
pub mod transfer_laws;
pub mod workspace;
pub mod workspace_laws;
pub mod zip_error;
pub mod zip_field_laws;
pub mod zip_laws;
pub mod zip_layout;
pub mod zip_reader;

pub use search::{search as search_file_contents, SearchError, SearchMatch, SearchOutcome};
pub use skills::{parse_frontmatter, split_frontmatter, ParsedFrontmatter};
pub use toolbox::{
    run_workspace_command, ToolboxError, WordCount, WorkspaceCommand, WorkspaceCommandOutput,
    WorkspaceEntry, WorkspaceEntryKind, TOOLBOX_DEFAULT_MAX_COPY_BYTES,
    TOOLBOX_DEFAULT_MAX_FIND_RESULTS, TOOLBOX_DEFAULT_MAX_LIST_ENTRIES,
    TOOLBOX_DEFAULT_MAX_MUTATION_ENTRIES, TOOLBOX_DEFAULT_MAX_READ_BYTES,
};
pub use zip_reader::{
    list_entry_names as list_zip_entry_names,
    read_entries_with_prefix as read_zip_entries_with_prefix,
    read_entry_bytes as read_zip_entry_bytes, read_entry_text as read_zip_entry_text, ZipReadError,
};
