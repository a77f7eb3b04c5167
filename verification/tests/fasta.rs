use fxread::{FastaReader, FastxRead};

#[test]
fn fasta_read_string() {
    let fasta: &'static [u8] = b">seq.id\nACGT\n";
    let mut reader = FastaReader::new(fasta.to_vec());
    let record = reader.next_record().unwrap();
    assert!(record.as_ref().is_some());
    assert_eq!(record.as_ref().unwrap().id(), b"seq.id");
    assert_eq!(record.as_ref().unwrap().seq(), b"ACGT");
    let mut remaining: usize = 0;
    while let Some(_) = reader.next_record().unwrap() {
        remaining += 1;
    }
    assert_eq!(remaining, 0);
}

#[test]
fn fasta_unexpected_chars() {
    let fasta: &'static [u8] = b">seq.id\nABCD\n";
    let mut reader = FastaReader::new(fasta.to_vec());
    let record = reader.next_record().unwrap().unwrap();
    assert!(!record.valid())
}

#[test]
fn fasta_lower_to_upper() {
    let fasta: &'static [u8] = b">seq.id\nacgt\n";
    let mut reader = FastaReader::new(fasta.to_vec());
    let record = reader.next_record().unwrap().unwrap();
    assert_eq!(record.seq_upper(), b"ACGT");
}
