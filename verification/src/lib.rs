//! Compiles a tree of Markdown fragments, linked by a manifest declared in
//! YAML front matter, into an ordered sequence of styled manuscript blocks,
//! together with the word-count rounding rule used for editorial display.

use vstd::prelude::*;

pub mod cmark;
pub mod constants;
pub mod context;
pub mod error;
pub mod manuscript;
pub mod markdown;
pub mod metadata;
pub mod obsidian_commander;
pub mod obsidian_shellcommands;
pub mod pii;
pub mod text;
pub mod utils;

verus! {

/// Top-level command-line configuration: which subcommand to run.
pub struct Cli {
    pub command: Commands,
}

/// The two operations the tool offers.
pub enum Commands {
    /// Compile Markdown file(s) into manuscript format.
    Compile(CompileArgs),
    /// Install the note-taking application integration.
    Obsidian(ObsidianArgs),
}

/// Arguments for a compilation run.
pub struct CompileArgs {
    /// The file or directory containing the manuscript in Markdown format.
    pub filename_or_path: String,

    /// The directory to output the manuscripts to.
    pub output_dir: Option<String>,

    /// Personally identifying information in Markdown format.
    pub pii: Option<String>,

    /// Display the word count and exit.
    pub word_count: Option<bool>,
}

/// Arguments for the vault-integration subcommand.
pub struct ObsidianArgs {
    /// The directory containing the vault to integrate with.
    pub obsidian_path: String,

    /// Manuscript export path.
    pub export_path: Option<String>,

    /// The folder used for the writing, relative to the vault root.
    pub vault_folder: Option<String>,

    /// If set, overwrite existing shell commands.
    pub overwrite: Option<bool>,

    /// Uninstall the integration.
    pub uninstall: Option<bool>,
}

} // verus!
