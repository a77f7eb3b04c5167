use vstd::prelude::*;

use crate::fasta::FastaReader;
use crate::fastq::FastqReader;
use crate::fastx::{step_of, FastxRead, Step};
use crate::record::Record;
use crate::FxError;

verus! {

/// Either scanner, chosen once the format of a stream is known.
#[derive(Debug)]
pub enum FastxReader {
    Fasta(FastaReader),
    Fastq(FastqReader),
}

impl FastxRead for FastxReader {
    closed spec fn stream(&self) -> Seq<u8> {
        match self {
            FastxReader::Fasta(r) => r.stream(),
            FastxReader::Fastq(r) => r.stream(),
        }
    }

    closed spec fn cursor(&self) -> int {
        match self {
            FastxReader::Fasta(r) => r.cursor(),
            FastxReader::Fastq(r) => r.cursor(),
        }
    }

    closed spec fn marker_byte(&self) -> u8 {
        match self {
            FastxReader::Fasta(r) => r.marker_byte(),
            FastxReader::Fastq(r) => r.marker_byte(),
        }
    }

    closed spec fn field_count(&self) -> nat {
        match self {
            FastxReader::Fasta(r) => r.field_count(),
            FastxReader::Fastq(r) => r.field_count(),
        }
    }

    closed spec fn wf(&self) -> bool {
        match self {
            FastxReader::Fasta(r) => r.wf(),
            FastxReader::Fastq(r) => r.wf(),
        }
    }

    fn next_record(&mut self) -> (r: Result<Option<Record>, FxError>) {
        match self {
            FastxReader::Fasta(reader) => reader.next_record(),
            FastxReader::Fastq(reader) => reader.next_record(),
        }
    }
}

/// Wraps a decompressed byte stream in the scanner the caller selected:
/// the FASTA scanner when `is_fasta` holds, the FASTQ scanner otherwise.
pub fn initialize_generic_reader(data: Vec<u8>, is_fasta: bool) -> (r: FastxReader)
    ensures
        r.stream() == data@,
        r.cursor() == 0,
        r.wf(),
        r.marker_byte() == if is_fasta {
            '>' as u8
        } else {
            '@' as u8
        },
        r.field_count() == if is_fasta {
            2nat
        } else {
            4nat
        },
{
    if is_fasta {
        FastxReader::Fasta(FastaReader::new(data))
    } else {
        FastxReader::Fastq(FastqReader::new(data))
    }
}

/// Classifies a decompressed byte stream by its first byte — `>` selects
/// FASTA, `@` selects FASTQ — and returns a scanner positioned at that
/// byte. An empty stream and any other first byte are rejected as
/// unrecognized.
pub fn initialize_reader(data: Vec<u8>) -> (r: Result<FastxReader, FxError>)
    ensures
        r is Ok <==> data@.len() >= 1 && (data@[0] == '>' as u8 || data@[0] == '@' as u8),
        r matches Err(e) ==> e == FxError::UnrecognizedFormat,
        r matches Ok(reader) ==> {
            &&& reader.stream() == data@
            &&& reader.cursor() == 0
            &&& reader.wf()
            &&& reader.marker_byte() == data@[0]
            &&& reader.field_count() == if data@[0] == '>' as u8 {
                2nat
            } else {
                4nat
            }
        },
{
    if data.len() == 0 {
        return Err(FxError::UnrecognizedFormat);
    }
    let first: u8 = data[0];
    if first == '>' as u8 {
        Ok(initialize_generic_reader(data, true))
    } else if first == '@' as u8 {
        Ok(initialize_generic_reader(data, false))
    } else {
        Err(FxError::UnrecognizedFormat)
    }
}

} // verus!
