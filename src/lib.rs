//! Ingestion of Illumina compressed base-call (CBCL) files: the byte-level
//! parser, the filter files, and a streaming reader whose input is handed to it
//! chunk by chunk, together with the sequencing-directory and sample-sheet
//! records that surround them.
pub mod cbcl;
pub mod completion;
pub mod error;
pub mod filter;
pub mod inflate;
pub mod lookup;
pub mod manager;
pub mod pipeline;
pub mod reader;
pub mod samplesheet;
pub mod sections;
pub mod seqdir;
pub mod text;
