use fxread::{FastqReader, FastxRead};

#[test]
fn fastq_read_string() {
    let fastq: &'static [u8] = b"@seq.id\nACGT\n+\n7162\n";
    let mut reader = FastqReader::new(fastq.to_vec());
    let record = reader.next_record().unwrap();
    assert!(record.as_ref().is_some());
    assert_eq!(record.as_ref().unwrap().id(), b"seq.id");
    assert_eq!(record.as_ref().unwrap().seq(), b"ACGT");
    let mut remaining: usize = 0;
    while let Some(_) = reader.next_record().unwrap() {
        remaining += 1;
    }
    assert_eq!(remaining, 0);
}

#[test]
fn fastq_unexpected_chars() {
    let fastq: &'static [u8] = b"@seq.id\nABCD\n+\n7162\n";
    let mut reader = FastqReader::new(fastq.to_vec());
    let record = reader.next_record().unwrap().unwrap();
    assert!(!record.valid())
}

#[test]
fn fastq_lower_to_upper() {
    let fastq: &'static [u8] = b"@seq.id\nacgt\n+\n7162\n";
    let mut reader = FastqReader::new(fastq.to_vec());
    let record = reader.next_record().unwrap().unwrap();
    assert_eq!(record.seq_upper(), b"ACGT");
}
