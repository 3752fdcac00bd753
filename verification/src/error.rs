//! The ways in which fetching a package can fail.

use crate::text::{decimal_text, u64_to_string};
use vstd::prelude::*;
use vstd::string::StringExecFns;

verus! {

/// Why a step of fetching a package failed.
#[derive(Debug, Clone)]
pub enum AptError {
    /// A request could not be sent, or its answer could not be received.
    Transport { detail: String },
    /// The server answered with a status outside the 2xx range.
    HttpStatus { code: u16, reason: String },
    /// The compressed index was corrupt.
    Decompression,
    /// No component of the index could be had from the mirror.
    IndexUnavailable,
    /// The index holds no record of the package for the architecture.
    PackageNotFound,
    /// The downloaded bytes do not have the expected digest.
    ChecksumMismatch { expected: String, actual: String },
    /// A directory or a file could not be created or written.
    Filesystem { detail: String },
}

impl AptError {
    /// The description of the failure as text.
    pub open spec fn message_text(self) -> Seq<char> {
        match self {
            AptError::Transport { detail } => detail@,
            AptError::HttpStatus { code, reason } => "Status: "@ + decimal_text(code as nat) + " "@
                + reason@,
            AptError::Decompression => "Failed to decompress repository information"@,
            AptError::IndexUnavailable => "Failed to download Packages.gz from any component"@,
            AptError::PackageNotFound => "Package not found in repository"@,
            AptError::ChecksumMismatch { expected, actual } => "MD5 checksum mismatch. Expected: "@
                + expected@ + ", got: "@ + actual@,
            AptError::Filesystem { detail } => detail@,
        }
    }

    /// Describes the failure.
    pub fn message(&self) -> (text: String)
        ensures
            text@ == self.message_text(),
    {
        match self {
            AptError::Transport { detail } => detail.clone(),
            AptError::HttpStatus { code, reason } => {
                let mut text = "Status: ".to_owned();
                let number = u64_to_string(*code as u64);
                text.append(number.as_str());
                text.append(" ");
                text.append(reason.as_str());
                text
            },
            AptError::Decompression => "Failed to decompress repository information".to_owned(),
            AptError::IndexUnavailable => "Failed to download Packages.gz from any component"
                .to_owned(),
            AptError::PackageNotFound => "Package not found in repository".to_owned(),
            AptError::ChecksumMismatch { expected, actual } => {
                let mut text = "MD5 checksum mismatch. Expected: ".to_owned();
                text.append(expected.as_str());
                text.append(", got: ");
                text.append(actual.as_str());
                text
            },
            AptError::Filesystem { detail } => detail.clone(),
        }
    }
}

} // verus!
