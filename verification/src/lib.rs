//! Reading and editing of FASTA and FASTQ records.
//!
//! A [`Record`] owns one contiguous buffer holding a single textual
//! record, marker byte included, and four lengths delimiting its fields.
//! The mutation algebra — trimming, insertion, case folding and
//! reverse-complementation — rewrites that buffer while keeping the
//! lengths consistent, and every operation carries a contract stating
//! exactly which bytes come out.
//!
//! The scanners [`FastaReader`] and [`FastqReader`] cut an in-memory
//! byte stream into successive records through the [`FastxRead`] trait;
//! [`initialize_reader`] picks the right scanner from the stream's first
//! byte. Callers that read files or decompress streams do so outside
//! this crate and hand the decompressed bytes in.

use vstd::prelude::*;

pub mod fasta;
pub mod fastq;
pub mod fastx;
pub mod record;
pub mod utils;

pub use fasta::FastaReader;
pub use fastq::FastqReader;
pub use fastx::FastxRead;
pub use record::Record;
pub use utils::{initialize_generic_reader, initialize_reader, FastxReader};

verus! {

/// The failure conditions a record operation or a scanner can report.
#[derive(Debug, Clone, Copy, PartialEq, Eq, Structural)]
pub enum FxError {
    /// A marker byte was misplaced, or a part handed to a constructor
    /// was rejected.
    MalformedInput,
    /// A trim size or an insertion position lies beyond the field it
    /// addresses.
    OutOfRange,
    /// The first byte of a stream selects neither format.
    UnrecognizedFormat,
}

} // verus!
