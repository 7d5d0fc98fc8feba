//! Error values surfaced by manuscript compilation and vault integration.

use vstd::prelude::*;

verus! {

/// Why a manuscript compilation failed.
#[derive(Debug)]
pub enum Md2msError {
    /// A manifest entry has no corresponding document; carries the
    /// offending relative path.
    FileNotFound(String),
    /// The metadata is missing its manifest key.
    NoFilesInMetadata,
    /// The rendered document could not be packed into its container file.
    PackError,
    /// An unknown error occurred.
    Unknown,
}

impl Md2msError {
    /// A human-readable description of the error.
    pub fn message(&self) -> (r: &'static str)
        ensures
            r@ == match self {
                Md2msError::FileNotFound(_) => "Included file not found"@,
                Md2msError::NoFilesInMetadata => "Metadata is missing its manifest key"@,
                Md2msError::PackError => "Error packing the document"@,
                Md2msError::Unknown => "An unknown error occurred"@,
            },
    {
        match self {
            Md2msError::FileNotFound(_) => "Included file not found",
            Md2msError::NoFilesInMetadata => "Metadata is missing its manifest key",
            Md2msError::PackError => "Error packing the document",
            Md2msError::Unknown => "An unknown error occurred",
        }
    }
}

/// Why a vault-integration step failed.
#[derive(Debug)]
pub enum ObsidianError {
    DirectoryCreationError,
    HttpError,
    OtherError,
    ParseError,
}

impl ObsidianError {
    /// A human-readable description of the error.
    pub fn message(&self) -> (r: &'static str)
        ensures
            r@ == match self {
                ObsidianError::DirectoryCreationError => "Couldn't create ~/.md2ms/obsidian directory"@,
                ObsidianError::HttpError => "HTTP Error"@,
                ObsidianError::OtherError => "Other Error"@,
                ObsidianError::ParseError => "Parse Error"@,
            },
    {
        match self {
            ObsidianError::DirectoryCreationError => "Couldn't create ~/.md2ms/obsidian directory",
            ObsidianError::HttpError => "HTTP Error",
            ObsidianError::OtherError => "Other Error",
            ObsidianError::ParseError => "Parse Error",
        }
    }
}

} // verus!
