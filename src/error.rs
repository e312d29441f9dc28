//! Errors of the CBCL and filter readers.
use vstd::prelude::*;

verus! {

/// Where in a file a layout violation was found.
#[derive(Debug, Clone, Copy, PartialEq, Eq, Structural)]
pub enum ParseStage {
    Preheader,
    Header,
    TileRow,
    Payload,
    FilterHeader,
}

/// What was wrong with the bytes at that stage.
#[derive(Debug, Clone, Copy, PartialEq, Eq, Structural)]
pub enum ParseKind {
    /// The input ended inside the record.
    Truncated,
    /// The record is complete but its contents cannot be used.
    BadRecord,
}

/// Everything that can go wrong while reading a CBCL or a filter file.
#[derive(Debug, Clone, Copy, PartialEq, Eq, Structural)]
pub enum BclError {
    /// A binary layout violation.
    ParseError { stage: ParseStage, kind: ParseKind },
    /// The underlying stream failed.
    IoError,
    /// The stream ended inside a structured field.
    EofError,
    /// The gzip decoder refused a tile block.
    DecompressError,
    /// A tile block inflated to another size than its header promised.
    DecompSizeMismatch,
    /// A compressed tile block was shorter than its header promised.
    CompSizeMismatch { expected: u32, got: usize },
    /// A filter does not hold exactly one entry per cluster.
    FilterSizeMismatch,
    /// A legacy uncompressed BCL was offered.
    UnsupportedFormat,
    /// A tile needs a filter that nobody provided.
    ConfigError,
    /// The work was abandoned because its queue closed.
    Cancelled,
}

impl BclError {
    /// A short human-readable description.
    pub fn message(&self) -> (r: &'static str) {
        match self {
            BclError::ParseError { .. } => "Error parsing BCL",
            BclError::IoError => "I/O error",
            BclError::EofError => "Unexpected EOF",
            BclError::DecompressError => "Decompression error",
            BclError::DecompSizeMismatch => "Decompressed basecalls did not match expected size",
            BclError::CompSizeMismatch { .. } => "Compressed block size did not match expected size",
            BclError::FilterSizeMismatch => "Filter length did not match the number of clusters",
            BclError::UnsupportedFormat => "Uncompressed BCL files are not supported",
            BclError::ConfigError => "A tile requires a filter that cannot be found",
            BclError::Cancelled => "Cancelled",
        }
    }
}

} // verus!
