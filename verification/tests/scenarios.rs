use fxread::{initialize_reader, FastaReader, FastqReader, FastxRead, FxError, Record};

#[test]
fn scenario_fasta_single_record_then_exhaustion() {
    let mut reader = FastaReader::new(b">seq.0\nACGT\n".to_vec());
    let record = reader.next_record().unwrap().unwrap();
    assert_eq!(record.id(), b"seq.0");
    assert_eq!(record.seq(), b"ACGT");
    assert!(reader.next_record().unwrap().is_none());
    assert!(reader.next_record().unwrap().is_none());
}

#[test]
fn scenario_fastq_single_record_fields() {
    let mut reader = FastqReader::new(b"@seq.0\nACGT\n+\n1234\n".to_vec());
    let record = reader.next_record().unwrap().unwrap();
    assert_eq!(record.id(), b"seq.0");
    assert_eq!(record.seq(), b"ACGT");
    assert_eq!(record.plus().unwrap(), b"+");
    assert_eq!(record.qual().unwrap(), b"1234");
    assert!(reader.next_record().unwrap().is_none());
}

#[test]
fn scenario_invalid_record_then_fix() {
    let mut reader = FastaReader::new(b">seq.0\nABCD\n".to_vec());
    let mut record = reader.next_record().unwrap().unwrap();
    assert!(!record.empty());
    assert!(!record.valid());
    record.fix();
    assert_eq!(record.seq(), b"ANCN");
    assert!(record.valid());
}

#[test]
fn scenario_marker_prefixed_id_rejected() {
    let err = Record::new_fasta_from_parts(b">bad", b"ACGT").unwrap_err();
    assert_eq!(err, FxError::MalformedInput);
    let err = Record::new_fastq_from_parts(b"@bad", b"ACGT", b"1234").unwrap_err();
    assert_eq!(err, FxError::MalformedInput);
}

#[test]
fn fasta_multiple_records() {
    let mut reader = FastaReader::new(b">a\nACGT\n>b\nGGCC\n>c\nTTTT\n".to_vec());
    let mut ids: Vec<Vec<u8>> = Vec::new();
    while let Some(record) = reader.next_record().unwrap() {
        ids.push(record.id().to_vec());
    }
    assert_eq!(ids, vec![b"a".to_vec(), b"b".to_vec(), b"c".to_vec()]);
}

#[test]
fn fastq_multiple_records_with_marker_in_quality() {
    let mut reader = FastqReader::new(b"@a\nAC\n+\n@@\n@b\nGT\n+\n!!\n".to_vec());
    let first = reader.next_record().unwrap().unwrap();
    assert_eq!(first.id(), b"a");
    assert_eq!(first.qual().unwrap(), b"@@");
    let second = reader.next_record().unwrap().unwrap();
    assert_eq!(second.id(), b"b");
    assert!(reader.next_record().unwrap().is_none());
}

#[test]
fn fasta_misplaced_marker_is_error() {
    let mut reader = FastaReader::new(b"junk>seq.0\nACGT\n".to_vec());
    let err = reader.next_record().unwrap_err();
    assert_eq!(err, FxError::MalformedInput);
}

#[test]
fn fastq_misplaced_marker_is_error() {
    let mut reader = FastqReader::new(b"xx@seq.0\nACGT\n+\n1234\n".to_vec());
    let err = reader.next_record().unwrap_err();
    assert_eq!(err, FxError::MalformedInput);
}

#[test]
fn fasta_truncated_record_yields_none() {
    let mut reader = FastaReader::new(b">only.an.id\n".to_vec());
    assert!(reader.next_record().unwrap().is_none());
}

#[test]
fn fastq_truncated_record_yields_none() {
    let mut reader = FastqReader::new(b"@seq.0\nACGT\n+\n".to_vec());
    assert!(reader.next_record().unwrap().is_none());
}

#[test]
fn initialize_reader_detects_fasta() {
    let mut reader = initialize_reader(b">seq.0\nACGT\n>seq.1\nGGGG\n".to_vec()).unwrap();
    let mut count: usize = 0;
    while let Some(record) = reader.next_record().unwrap() {
        assert!(!record.empty());
        count += 1;
    }
    assert_eq!(count, 2);
}

#[test]
fn initialize_reader_detects_fastq() {
    let mut reader = initialize_reader(b"@t\nACGT\n+\n!!!!\n@u\nACGT\n+\n!!!!\n".to_vec()).unwrap();
    let mut count: usize = 0;
    while let Some(record) = reader.next_record().unwrap() {
        assert!(record.is_fastq());
        count += 1;
    }
    assert_eq!(count, 2);
}

#[test]
fn initialize_reader_rejects_unknown_leading_byte() {
    let err = initialize_reader(b"seq.0\nACGT\n".to_vec()).unwrap_err();
    assert_eq!(err, FxError::UnrecognizedFormat);
}

#[test]
fn initialize_reader_rejects_empty_input() {
    let err = initialize_reader(Vec::new()).unwrap_err();
    assert_eq!(err, FxError::UnrecognizedFormat);
}

#[test]
fn seq_upper_is_idempotent_on_example() {
    let record = Record::new_fasta(b">r\nacgTUnN\n".to_vec(), 2, 8);
    let once = record.seq_upper();
    let again = Record::new_fasta_from_parts(b"r", &once).unwrap().seq_upper();
    assert_eq!(once, b"ACGTUNN");
    assert_eq!(again, once);
}

#[test]
fn rev_comp_twice_restores_fastq() {
    let mut record = Record::new_fastq(b"@r\nACGTN\n+\n12345\n".to_vec(), 2, 6, 2, 6);
    let original_seq = record.seq().to_vec();
    let original_qual = record.qual().unwrap().to_vec();
    record.rev_comp();
    record.rev_comp();
    assert_eq!(record.seq(), original_seq.as_slice());
    assert_eq!(record.qual().unwrap(), original_qual.as_slice());
}

#[test]
fn trim_left_drops_exactly_the_prefix() {
    let mut record = Record::new_fasta(b">r\nACGTAC\n".to_vec(), 2, 7);
    let before = record.seq().to_vec();
    record.trim_left(3).unwrap();
    assert_eq!(record.seq().len(), before.len() - 3);
    assert_eq!(record.seq(), &before[3..]);
}

#[test]
fn trim_right_drops_exactly_the_suffix() {
    let mut record = Record::new_fasta(b">r\nACGTAC\n".to_vec(), 2, 7);
    let before = record.seq().to_vec();
    record.trim_right(3).unwrap();
    assert_eq!(record.seq().len(), before.len() - 3);
    assert_eq!(record.seq(), &before[..3]);
}

#[test]
fn insert_left_then_trim_left_roundtrip() {
    let mut record = Record::new_fastq(b"@r\nACGT\n+\n1234\n".to_vec(), 2, 5, 2, 5);
    let original = record.as_str().to_string();
    record.insert_seq_left(b"GGG").unwrap();
    record.trim_left(3).unwrap();
    assert_eq!(record.as_str(), original);
}

#[test]
fn from_parts_roundtrip_renders_exact_text() {
    let record = Record::new_fasta_from_parts(b"id.1", b"ACGTN").unwrap();
    assert_eq!(record.as_str(), ">id.1\nACGTN\n");
    assert_eq!(record.data(), b">id.1\nACGTN\n");
    let record = Record::new_fastq_from_parts(b"id.2", b"ACGT", b"FFFF").unwrap();
    assert_eq!(record.as_str(), "@id.2\nACGT\n+\nFFFF\n");
    assert_eq!(record.data(), b"@id.2\nACGT\n+\nFFFF\n");
}

#[test]
fn insert_at_field_length_fails_without_corruption() {
    let mut record = Record::new_fasta(b">r\nACGT\n".to_vec(), 2, 5);
    assert_eq!(record.insert_seq(b"TT", 5).unwrap_err(), FxError::OutOfRange);
    assert_eq!(record.seq(), b"ACGT");
    assert_eq!(record.as_str(), ">r\nACGT\n");
}

#[test]
fn trim_at_oversize_fails_without_corruption() {
    let mut record = Record::new_fastq(b"@r\nACGT\n+\n1234\n".to_vec(), 2, 5, 2, 5);
    assert_eq!(record.trim_left(6).unwrap_err(), FxError::OutOfRange);
    assert_eq!(record.trim_right(6).unwrap_err(), FxError::OutOfRange);
    assert_eq!(record.as_str(), "@r\nACGT\n+\n1234\n");
}

#[test]
fn str_methods_reject_invalid_utf8() {
    let record = Record::new_fasta(vec![b'>', 0xff, 0xfe, b'\n', b'A', b'\n'], 3, 2);
    assert!(record.as_str_checked().is_err());
    assert!(record.id_str_checked().is_err());
    assert!(record.seq_str_checked().is_ok());
}

#[test]
fn valid_header_follows_marker() {
    let fasta = Record::new_fasta(b">r\nACGT\n".to_vec(), 2, 5);
    assert!(fasta.valid_header());
    let disguised = Record::new_fasta(b"@r\nACGT\n".to_vec(), 2, 5);
    assert!(!disguised.valid_header());
    let fastq = Record::new_fastq(b"@r\nACGT\n+\n1234\n".to_vec(), 2, 5, 2, 5);
    assert!(fastq.valid_header());
}

#[test]
fn ranges_delimit_the_fields() {
    let record = Record::new_fastq(b"@r\nACGT\n+\n1234\n".to_vec(), 2, 5, 2, 5);
    assert_eq!(record.id_range(), 1..2);
    assert_eq!(record.seq_range(), 3..7);
    assert_eq!(record.plus_range(), Some(8..9));
    assert_eq!(record.qual_range(), Some(10..14));
    let fasta = Record::new_fasta(b">r\nACGT\n".to_vec(), 2, 5);
    assert_eq!(fasta.plus_range(), None);
    assert_eq!(fasta.qual_range(), None);
}
