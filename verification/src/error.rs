//! What can go wrong while building, saving or loading an index.
use vstd::prelude::*;
use vstd::string::StringExecFns;

use crate::text::to_decimal;
#[allow(unused_imports)]
use crate::text::decimal;

verus! {

/// The only version of the cache format that is written and read.
pub const VERSION: u32 = 2;

#[derive(Debug)]
pub enum SonarError {
    /// The project root does not exist.
    PathMissing { path: String },
    /// The project root is not a directory.
    NotADirectory { path: String },
    /// The walk below the root found nothing to index.
    NoSupportedFiles { path: String },
    /// Files were found, but chunking them gave nothing.
    NoChunks,
    /// The data ends inside the magic bytes.
    MagicTruncated,
    /// The data does not start with the magic bytes.
    InvalidMagic { bytes: (u8, u8, u8, u8) },
    /// The data ends inside an integer or a blob.
    Truncated,
    /// The data was written in another version of the format.
    UnsupportedVersion { version: u32 },
    /// The stored content hash is not UTF-8.
    HashNotUtf8 { reason: String },
    /// The stored chunks are not the JSON form of a chunk list.
    ChunksNotParsed { reason: String },
    /// The stored documents are not the JSON form of a document list.
    DocumentsNotParsed { reason: String },
    /// The stored vectors do not fill one vector of the stored dimension per chunk.
    EmbeddingSize { expected: u128, found: usize },
    /// The chunks could not be turned into JSON.
    ChunksNotSerialized { reason: String },
    /// The documents could not be turned into JSON.
    DocumentsNotSerialized { reason: String },
}

/// The text of an error.
pub open spec fn error_text(e: SonarError) -> Seq<char> {
    match e {
        SonarError::PathMissing { path } => "Path does not exist: "@ + path@,
        SonarError::NotADirectory { path } => "Path is not a directory: "@ + path@,
        SonarError::NoSupportedFiles { path } => "No supported files found under "@ + path@,
        SonarError::NoChunks => "No chunks produced from files"@,
        SonarError::MagicTruncated => "read magic: failed to fill whole buffer"@,
        SonarError::InvalidMagic { bytes } => "invalid magic bytes: expected SONR, got ["@
            + decimal(bytes.0 as nat) + ", "@ + decimal(bytes.1 as nat) + ", "@ + decimal(
            bytes.2 as nat,
        ) + ", "@ + decimal(bytes.3 as nat) + "]"@,
        SonarError::Truncated => "read error: failed to fill whole buffer"@,
        SonarError::UnsupportedVersion { version } => "unsupported index version: expected "@
            + decimal(VERSION as nat) + ", got "@ + decimal(version as nat),
        SonarError::HashNotUtf8 { reason } => "invalid hash string: "@ + reason@,
        SonarError::ChunksNotParsed { reason } => "deserialize chunks: "@ + reason@,
        SonarError::DocumentsNotParsed { reason } => "deserialize documents: "@ + reason@,
        SonarError::EmbeddingSize { expected, found } => "embedding size mismatch: expected "@
            + decimal(expected as nat) + " bytes, got "@ + decimal(found as nat),
        SonarError::ChunksNotSerialized { reason } => "serialize chunks: "@ + reason@,
        SonarError::DocumentsNotSerialized { reason } => "serialize documents: "@ + reason@,
    }
}

impl SonarError {
    /// The text shown for the error.
    pub fn message(&self) -> (r: String)
        ensures
            r@ == error_text(*self),
    {
        match self {
            SonarError::PathMissing { path } => prefixed("Path does not exist: ", path),
            SonarError::NotADirectory { path } => prefixed("Path is not a directory: ", path),
            SonarError::NoSupportedFiles { path } => prefixed(
                "No supported files found under ",
                path,
            ),
            SonarError::NoChunks => "No chunks produced from files".to_owned(),
            SonarError::MagicTruncated => "read magic: failed to fill whole buffer".to_owned(),
            SonarError::InvalidMagic { bytes } => {
                let mut out = "invalid magic bytes: expected SONR, got [".to_owned();
                out.append(to_decimal(bytes.0 as u128).as_str());
                out.append(", ");
                out.append(to_decimal(bytes.1 as u128).as_str());
                out.append(", ");
                out.append(to_decimal(bytes.2 as u128).as_str());
                out.append(", ");
                out.append(to_decimal(bytes.3 as u128).as_str());
                out.append("]");
                out
            },
            SonarError::Truncated => "read error: failed to fill whole buffer".to_owned(),
            SonarError::UnsupportedVersion { version } => {
                let mut out = "unsupported index version: expected ".to_owned();
                out.append(to_decimal(VERSION as u128).as_str());
                out.append(", got ");
                out.append(to_decimal(*version as u128).as_str());
                out
            },
            SonarError::HashNotUtf8 { reason } => prefixed("invalid hash string: ", reason),
            SonarError::ChunksNotParsed { reason } => prefixed("deserialize chunks: ", reason),
            SonarError::DocumentsNotParsed { reason } => prefixed(
                "deserialize documents: ",
                reason,
            ),
            SonarError::EmbeddingSize { expected, found } => {
                let mut out = "embedding size mismatch: expected ".to_owned();
                out.append(to_decimal(*expected).as_str());
                out.append(" bytes, got ");
                out.append(to_decimal(*found as u128).as_str());
                out
            },
            SonarError::ChunksNotSerialized { reason } => prefixed("serialize chunks: ", reason),
            SonarError::DocumentsNotSerialized { reason } => prefixed(
                "serialize documents: ",
                reason,
            ),
        }
    }
}

fn prefixed(prefix: &str, rest: &String) -> (r: String)
    ensures
        r@ == prefix@ + rest@,
{
    let mut out = prefix.to_owned();
    out.append(rest.as_str());
    out
}

} // verus!
