use fxread::Record;

fn gen_valid_fasta() -> (Vec<u8>, usize, usize) {
    (b">seq.0\nACGT\n".to_vec(), 6, 5)
}

fn gen_invalid_fasta() -> (Vec<u8>, usize, usize) {
    (b">seq.0\nABCD\n".to_vec(), 6, 5)
}

fn gen_valid_fasta_lower() -> (Vec<u8>, usize, usize) {
    (b">seq.0\nacgt\n".to_vec(), 6, 5)
}

fn gen_invalid_fasta_lower() -> (Vec<u8>, usize, usize) {
    (b">seq.0\nabcd\n".to_vec(), 6, 5)
}

fn gen_valid_fasta_rev() -> (Vec<u8>, usize, usize) {
    (b">seq.0\nATCGGCTA\n".to_vec(), 6, 9)
}

fn gen_valid_fasta_rev_lower() -> (Vec<u8>, usize, usize) {
    (b">seq.0\natcggcta\n".to_vec(), 6, 9)
}

fn gen_valid_fastq() -> (Vec<u8>, usize, usize, usize, usize) {
    (b"@seq.0\nACGT\n+\n1234\n".to_vec(), 6, 5, 2, 5)
}

fn gen_invalid_fastq() -> (Vec<u8>, usize, usize, usize, usize) {
    (b"@seq.0\nABCD\n+\n1234\n".to_vec(), 6, 5, 2, 5)
}

#[test]
fn create() {
    let record = Record::new();
    assert!(record.empty());
    assert!(!record.valid());
}

#[test]
fn valid_fasta() {
    let (fasta, id, seq) = gen_valid_fasta();
    let record = Record::new_fasta(fasta, id, seq);
    assert!(!record.empty());
    assert!(record.valid());
    assert_eq!(record.id(), b"seq.0");
    assert_eq!(record.seq(), b"ACGT");
}

#[test]
fn invalid_fasta() {
    let (fasta, id, seq) = gen_invalid_fasta();
    let record = Record::new_fasta(fasta, id, seq);
    assert!(!record.empty());
    assert!(!record.valid());
}

#[test]
fn valid_fastq() {
    let (fasta, id, seq, plus, qual) = gen_valid_fastq();
    let record = Record::new_fastq(fasta, id, seq, plus, qual);
    assert!(!record.empty());
    assert!(record.valid());
    assert_eq!(record.id(), b"seq.0");
    assert_eq!(record.seq(), b"ACGT");
    assert_eq!(record.plus().unwrap(), b"+");
    assert_eq!(record.qual().unwrap(), b"1234");
}

#[test]
fn invalid_fastq() {
    let (fasta, id, seq, plus, qual) = gen_invalid_fastq();
    let record = Record::new_fastq(fasta, id, seq, plus, qual);
    assert!(!record.empty());
    assert!(!record.valid());
}

#[test]
fn valid_lowercase() {
    let (fasta, id, seq) = gen_valid_fasta_lower();
    let record = Record::new_fasta(fasta, id, seq);
    assert!(!record.empty());
    assert!(record.valid());
    assert_eq!(record.id(), b"seq.0");
    assert_eq!(record.seq(), b"acgt");
}

#[test]
fn invalid_lowercase() {
    let (fasta, id, seq) = gen_invalid_fasta_lower();
    let record = Record::new_fasta(fasta, id, seq);
    assert!(!record.empty());
    assert!(!record.valid());
}

#[test]
fn upper_conversion() {
    let (fasta, id, seq) = gen_valid_fasta_lower();
    let record = Record::new_fasta(fasta, id, seq);
    assert!(!record.empty());
    assert!(record.valid());
    assert_eq!(record.seq_upper(), b"ACGT");
}

#[test]
fn reverse_complement() {
    let (fasta, id, seq) = gen_valid_fasta_rev();
    let record = Record::new_fasta(fasta, id, seq);
    assert!(!record.empty());
    assert!(record.valid());
    assert_eq!(record.seq_rev_comp(), b"TAGCCGAT");
}

#[test]
fn reverse_complement_lower() {
    let (fasta, id, seq) = gen_valid_fasta_rev_lower();
    let record = Record::new_fasta(fasta, id, seq);
    assert!(!record.empty());
    assert!(record.valid());
    assert_eq!(record.seq_rev_comp(), b"tagccgat");
}

#[test]
fn invalid_fix_fasta() {
    let (fasta, id, seq) = gen_invalid_fasta();
    let mut record = Record::new_fasta(fasta, id, seq);
    assert!(!record.empty());
    assert!(!record.valid());
    assert_eq!(record.seq(), b"ABCD");
    record.fix();
    assert!(record.valid());
    assert_eq!(record.seq(), b"ANCN");
}

#[test]
fn invalid_fix_fastq() {
    let (fasta, id, seq, plus, qual) = gen_invalid_fastq();
    let mut record = Record::new_fastq(fasta, id, seq, plus, qual);
    assert!(!record.empty());
    assert!(!record.valid());
    assert_eq!(record.seq(), b"ABCD");
    record.fix();
    assert!(record.valid());
    assert_eq!(record.seq(), b"ANCN");
}

#[test]
fn upper_inplace() {
    let (fasta, id, seq) = gen_valid_fasta_lower();
    let mut record = Record::new_fasta(fasta, id, seq);
    assert!(!record.empty());
    assert!(record.valid());
    assert_eq!(record.seq(), b"acgt");
    record.upper();
    assert_eq!(record.seq(), b"ACGT");
}

#[test]
fn upper_nochange_inplace() {
    let (fasta, id, seq) = gen_valid_fasta();
    let mut record = Record::new_fasta(fasta, id, seq);
    assert!(!record.empty());
    assert!(record.valid());
    assert_eq!(record.seq(), b"ACGT");
    record.upper();
    assert_eq!(record.seq(), b"ACGT");
}

#[test]
fn reverse_complement_inplace() {
    let (fasta, id, seq) = gen_valid_fasta_rev();
    let mut record = Record::new_fasta(fasta, id, seq);
    assert!(!record.empty());
    assert!(record.valid());
    assert_eq!(record.seq(), b"ATCGGCTA");
    record.rev_comp();
    assert_eq!(record.seq(), b"TAGCCGAT");
}

#[test]
fn reverse_complement_fastq_inplace() {
    let (fasta, id, seq, plus, qual) = gen_valid_fastq();
    let mut record = Record::new_fastq(fasta, id, seq, plus, qual);
    assert!(!record.empty());
    assert!(record.valid());
    assert_eq!(record.seq(), b"ACGT");
    assert_eq!(record.qual().unwrap(), b"1234");
    record.rev_comp();
    assert_eq!(record.seq(), b"ACGT");
    assert_eq!(record.qual().unwrap(), b"4321");
}

#[test]
fn fasta_str_methods() {
    let (fasta, id, seq) = gen_valid_fasta();
    let expected = String::from(">seq.0\nACGT\n");
    let record = Record::new_fasta(fasta, id, seq);
    assert_eq!(record.id_str(), "seq.0");
    assert_eq!(record.id_str_checked(), Ok("seq.0"));
    assert_eq!(record.seq_str(), "ACGT");
    assert_eq!(record.seq_str_checked(), Ok("ACGT"));
    let repr = record.as_str();
    assert_eq!(repr, &expected);
    let repr: String = record.into_string();
    assert_eq!(repr, expected);
}

#[test]
fn fastq_str_methods() {
    let (fasta, id, seq, plus, qual) = gen_valid_fastq();
    let expected = String::from("@seq.0\nACGT\n+\n1234\n");
    let record = Record::new_fastq(fasta, id, seq, plus, qual);
    assert_eq!(record.id_str(), "seq.0");
    assert_eq!(record.seq_str(), "ACGT");
    assert_eq!(record.qual_str(), Some("1234"));
    assert_eq!(record.id_str_checked(), Ok("seq.0"));
    assert_eq!(record.seq_str_checked(), Ok("ACGT"));
    assert_eq!(record.qual_str_checked(), Some(Ok("1234")));
    let repr = record.as_str();
    assert_eq!(repr, &expected);
    let repr: String = record.into_string();
    assert_eq!(repr, expected);
}

#[test]
fn fasta_trim_left_oversized() {
    let (fasta, id, seq) = gen_valid_fasta();
    let mut record = Record::new_fasta(fasta, id, seq);
    assert!(record.trim_left(10).is_err());
}

#[test]
fn fasta_trim_right_oversized() {
    let (fasta, id, seq) = gen_valid_fasta();
    let mut record = Record::new_fasta(fasta, id, seq);
    assert!(record.trim_right(10).is_err());
}

#[test]
fn fastq_trim_left_oversized() {
    let (fasta, id, seq, plus, qual) = gen_valid_fastq();
    let mut record = Record::new_fastq(fasta, id, seq, plus, qual);
    assert!(record.trim_left(10).is_err());
}

#[test]
fn fastq_trim_right_oversized() {
    let (fasta, id, seq, plus, qual) = gen_valid_fastq();
    let mut record = Record::new_fastq(fasta, id, seq, plus, qual);
    assert!(record.trim_right(10).is_err());
}

#[test]
fn fasta_trim_left() {
    let (fasta, id, seq) = gen_valid_fasta();
    let mut record = Record::new_fasta(fasta, id, seq);
    record.trim_left(2).unwrap();
    assert_eq!(record.id_str(), "seq.0");
    assert_eq!(record.seq_str(), "GT");
    assert_eq!(record.as_str(), ">seq.0\nGT\n");
}

#[test]
fn fastq_trim_left() {
    let (fasta, id, seq, plus, qual) = gen_valid_fastq();
    let mut record = Record::new_fastq(fasta, id, seq, plus, qual);
    record.trim_left(2).unwrap();
    assert_eq!(record.id_str(), "seq.0");
    assert_eq!(record.seq_str(), "GT");
    assert_eq!(record.qual_str(), Some("34"));
    assert_eq!(record.as_str(), "@seq.0\nGT\n+\n34\n");
}

#[test]
fn fasta_trim_right() {
    let (fasta, id, seq) = gen_valid_fasta();
    let mut record = Record::new_fasta(fasta, id, seq);
    record.trim_right(2).unwrap();
    assert_eq!(record.id_str(), "seq.0");
    assert_eq!(record.seq_str(), "AC");
    assert_eq!(record.as_str(), ">seq.0\nAC\n");
}

#[test]
fn fastq_trim_right() {
    let (fasta, id, seq, plus, qual) = gen_valid_fastq();
    let mut record = Record::new_fastq(fasta, id, seq, plus, qual);
    record.trim_right(2).unwrap();
    assert_eq!(record.id_str(), "seq.0");
    assert_eq!(record.seq_str(), "AC");
    assert_eq!(record.qual_str(), Some("12"));
    assert_eq!(record.as_str(), "@seq.0\nAC\n+\n12\n");
}

#[test]
fn fasta_insert_left() {
    let (fasta, id, seq) = gen_valid_fasta();
    let mut record = Record::new_fasta(fasta, id, seq);
    record.insert_seq_left(b"TT").unwrap();
    assert_eq!(record.id_str(), "seq.0");
    assert_eq!(record.seq_str(), "TTACGT");
    assert_eq!(record.as_str(), ">seq.0\nTTACGT\n");
}

#[test]
fn fastq_insert_left() {
    let (fasta, id, seq, plus, qual) = gen_valid_fastq();
    let mut record = Record::new_fastq(fasta, id, seq, plus, qual);
    record.insert_seq_left(b"TT").unwrap();
    assert_eq!(record.id_str(), "seq.0");
    assert_eq!(record.seq_str(), "TTACGT");
    assert_eq!(record.qual_str(), Some("FF1234"));
    assert_eq!(record.as_str(), "@seq.0\nTTACGT\n+\nFF1234\n");
}

#[test]
fn fasta_insert_right() {
    let (fasta, id, seq) = gen_valid_fasta();
    let mut record = Record::new_fasta(fasta, id, seq);
    record.insert_seq_right(b"TT").unwrap();
    assert_eq!(record.id_str(), "seq.0");
    assert_eq!(record.seq_str(), "ACGTTT");
    assert_eq!(record.as_str(), ">seq.0\nACGTTT\n");
}

#[test]
fn fastq_insert_right() {
    let (fasta, id, seq, plus, qual) = gen_valid_fastq();
    let mut record = Record::new_fastq(fasta, id, seq, plus, qual);
    record.insert_seq_right(b"TT").unwrap();
    assert_eq!(record.id_str(), "seq.0");
    assert_eq!(record.seq_str(), "ACGTTT");
    assert_eq!(record.qual_str(), Some("1234FF"));
    assert_eq!(record.as_str(), "@seq.0\nACGTTT\n+\n1234FF\n");
}

#[test]
fn fasta_insert_middle() {
    let (fasta, id, seq) = gen_valid_fasta();
    let mut record = Record::new_fasta(fasta, id, seq);
    record.insert_seq(b"TT", 2).unwrap();
    assert_eq!(record.id_str(), "seq.0");
    assert_eq!(record.seq_str(), "ACTTGT");
    assert_eq!(record.as_str(), ">seq.0\nACTTGT\n");
}

#[test]
fn fastq_insert_middle() {
    let (fasta, id, seq, plus, qual) = gen_valid_fastq();
    let mut record = Record::new_fastq(fasta, id, seq, plus, qual);
    record.insert_seq(b"TT", 2).unwrap();
    assert_eq!(record.id_str(), "seq.0");
    assert_eq!(record.seq_str(), "ACTTGT");
    assert_eq!(record.qual_str(), Some("12FF34"));
    assert_eq!(record.as_str(), "@seq.0\nACTTGT\n+\n12FF34\n");
}

#[test]
fn fasta_insert_custom_oversized() {
    let (fasta, id, seq) = gen_valid_fasta();
    let mut record = Record::new_fasta(fasta, id, seq);
    assert!(record.insert_seq(b"TT", 10).is_err());

    // the stored size is an error because it includes the terminator
    let (fasta, id, seq) = gen_valid_fasta();
    let mut record = Record::new_fasta(fasta, id, seq);
    assert!(record.insert_seq(b"TT", seq).is_err());
}

#[test]
fn fastq_insert_custom_oversized() {
    let (fasta, id, seq, plus, qual) = gen_valid_fastq();
    let mut record = Record::new_fastq(fasta, id, seq, plus, qual);
    assert!(record.insert_seq(b"TT", 10).is_err());

    // the stored size is an error because it includes the terminator
    let (fasta, id, seq, plus, qual) = gen_valid_fastq();
    let mut record = Record::new_fastq(fasta, id, seq, plus, qual);
    assert!(record.insert_seq(b"TT", seq).is_err());
}

#[test]
fn init_fastq_from_parts() {
    let id = b"seq.0";
    let seq = b"ACGT";
    let qual = b"1234";
    let record = Record::new_fastq_from_parts(id, seq, qual).unwrap();
    let expected_plus = vec![b'+'];
    assert_eq!(record.id_str(), "seq.0");
    assert_eq!(record.seq_str(), "ACGT");
    assert_eq!(record.plus(), Some(expected_plus.as_slice()));
    assert_eq!(record.qual_str(), Some("1234"));
}

#[test]
fn init_fasta_from_parts() {
    let id = b"seq.0";
    let seq = b"ACGT";
    let record = Record::new_fasta_from_parts(id, seq).unwrap();
    assert_eq!(record.id_str(), "seq.0");
    assert_eq!(record.seq_str(), "ACGT");
    assert!(record.plus().is_none());
    assert!(record.qual_str().is_none());
}

#[test]
fn init_fastq_from_parts_invalid_id_a() {
    let id = b"seq.0\n";
    let seq = b"ACGT";
    let qual = b"1234";
    assert!(Record::new_fastq_from_parts(id, seq, qual).is_err());
}

#[test]
fn init_fastq_from_parts_invalid_id_b() {
    let id = b"@seq.0";
    let seq = b"ACGT";
    let qual = b"1234";
    assert!(Record::new_fastq_from_parts(id, seq, qual).is_err());
}

#[test]
fn init_fastq_from_parts_invalid_seq_a() {
    let id = b"seq.0";
    let seq = b"ACGT\n";
    let qual = b"1234";
    assert!(Record::new_fastq_from_parts(id, seq, qual).is_err());
}

#[test]
fn init_fastq_from_parts_invalid_seq_qual_size_mismatch() {
    let id = b"seq.0";
    let seq = b"ACGTA";
    let qual = b"1234";
    assert!(Record::new_fastq_from_parts(id, seq, qual).is_err());
}

#[test]
fn init_fastq_from_parts_invalid_qual_a() {
    let id = b"seq.0";
    let seq = b"ACGT";
    let qual = b"1234\n";
    assert!(Record::new_fastq_from_parts(id, seq, qual).is_err());
}

#[test]
fn init_fasta_from_parts_invalid_id_a() {
    let id = b"seq.0\n";
    let seq = b"ACGT";
    assert!(Record::new_fasta_from_parts(id, seq).is_err());
}

#[test]
fn init_fasta_from_parts_invalid_id_b() {
    let id = b">seq.0";
    let seq = b"ACGT";
    assert!(Record::new_fasta_from_parts(id, seq).is_err());
}

#[test]
fn init_fasta_from_parts_invalid_seq_a() {
    let id = b"seq.0";
    let seq = b"ACGT\n";
    assert!(Record::new_fasta_from_parts(id, seq).is_err());
}
