use vstd::prelude::*;
use vstd::string::StringSliceAdditionalSpecFns;

use crate::FxError;

verus! {

// ---------------------------------------------------------------------------
// Byte-level alphabet rules
// ---------------------------------------------------------------------------

/// Bytes accepted by `valid`: the nucleotide alphabet in either case.
pub open spec fn is_valid_base(b: u8) -> bool {
    ||| b == 'A' as u8
    ||| b == 'a' as u8
    ||| b == 'C' as u8
    ||| b == 'c' as u8
    ||| b == 'G' as u8
    ||| b == 'g' as u8
    ||| b == 'T' as u8
    ||| b == 't' as u8
    ||| b == 'N' as u8
    ||| b == 'n' as u8
    ||| b == 'U' as u8
    ||| b == 'u' as u8
}

/// Bytes that `fix` keeps unchanged; every other byte becomes `N`.
/// This set deliberately omits `U`/`u`, although `valid` accepts them.
pub open spec fn is_keep_base(b: u8) -> bool {
    ||| b == 'A' as u8
    ||| b == 'a' as u8
    ||| b == 'C' as u8
    ||| b == 'c' as u8
    ||| b == 'G' as u8
    ||| b == 'g' as u8
    ||| b == 'T' as u8
    ||| b == 't' as u8
    ||| b == 'N' as u8
    ||| b == 'n' as u8
}

/// ASCII case fold: clear bit 0x20 of every byte.
pub open spec fn upper_byte(b: u8) -> u8 {
    b & 0xdf
}

pub open spec fn upper_bytes(s: Seq<u8>) -> Seq<u8> {
    Seq::new(s.len(), |i: int| upper_byte(s[i]))
}

/// Watson-Crick complement, preserving case; bytes outside the paired
/// alphabet are left unchanged.
pub open spec fn comp_byte(b: u8) -> u8 {
    if b == 'A' as u8 {
        'T' as u8
    } else if b == 'T' as u8 {
        'A' as u8
    } else if b == 'C' as u8 {
        'G' as u8
    } else if b == 'G' as u8 {
        'C' as u8
    } else if b == 'a' as u8 {
        't' as u8
    } else if b == 't' as u8 {
        'a' as u8
    } else if b == 'c' as u8 {
        'g' as u8
    } else if b == 'g' as u8 {
        'c' as u8
    } else {
        b
    }
}

pub open spec fn fix_byte(b: u8) -> u8 {
    if is_keep_base(b) {
        b
    } else {
        'N' as u8
    }
}

pub open spec fn rev_bytes(s: Seq<u8>) -> Seq<u8> {
    Seq::new(s.len(), |i: int| s[s.len() - 1 - i])
}

/// Reverse, then complement every byte.
pub open spec fn rev_comp_bytes(s: Seq<u8>) -> Seq<u8> {
    Seq::new(s.len(), |i: int| comp_byte(s[s.len() - 1 - i]))
}

// ---------------------------------------------------------------------------
// The mathematical model of a record
// ---------------------------------------------------------------------------

/// Ghost model of a `Record`: the raw bytes and the four stored field
/// lengths. Each length counts the field's line terminator; the marker
/// byte at index 0 of `data` is counted by none of them.
#[verifier::ext_equal]
pub struct RecordView {
    pub data: Seq<u8>,
    pub id: nat,
    pub seq: nat,
    pub plus: Option<nat>,
    pub qual: Option<nat>,
}

impl RecordView {
    pub open spec fn plus_len(self) -> nat {
        match self.plus {
            Some(p) => p,
            None => 0,
        }
    }

    pub open spec fn qual_len(self) -> nat {
        match self.qual {
            Some(q) => q,
            None => 0,
        }
    }

    /// One marker byte plus the four counted field lengths.
    pub open spec fn total_len(self) -> nat {
        (1 + self.id + self.seq + self.plus_len() + self.qual_len()) as nat
    }

    /// Structural well-formedness: the separator and quality lengths are
    /// present together or absent together, and the buffer holds exactly
    /// the marker plus the counted fields.
    pub open spec fn wf(self) -> bool {
        &&& (self.plus is Some <==> self.qual is Some)
        &&& self.data.len() == self.total_len()
    }

    /// The state of a freshly created record: no buffer, no fields.
    pub open spec fn blank(self) -> bool {
        &&& self.data.len() == 0
        &&& self.id == 0
        &&& self.seq == 0
        &&& self.plus is None
        &&& self.qual is None
    }

    pub open spec fn inv(self) -> bool {
        self.wf() || self.blank()
    }

    pub open spec fn empty(self) -> bool {
        self.id == 0 || self.seq == 0
    }

    pub open spec fn is_fasta(self) -> bool {
        self.plus is None && self.qual is None
    }

    pub open spec fn is_fastq(self) -> bool {
        self.plus is Some && self.qual is Some
    }

    pub open spec fn seq_lo(self) -> int {
        self.id + 1int
    }

    pub open spec fn seq_hi(self) -> int {
        (self.id + self.seq) as int
    }

    pub open spec fn plus_lo(self) -> int {
        self.id + self.seq + 1int
    }

    pub open spec fn plus_hi(self) -> int {
        (self.id + self.seq + self.plus_len()) as int
    }

    pub open spec fn qual_lo(self) -> int {
        self.id + self.seq + self.plus_len() + 1int
    }

    pub open spec fn qual_hi(self) -> int {
        (self.id + self.seq + self.plus_len() + self.qual_len()) as int
    }

    /// The identifier line without its terminator.
    pub open spec fn id_bytes(self) -> Seq<u8> {
        self.data.subrange(1, self.id as int)
    }

    /// The sequence line without its terminator.
    pub open spec fn seq_bytes(self) -> Seq<u8> {
        self.data.subrange(self.seq_lo(), self.seq_hi())
    }

    pub open spec fn plus_bytes(self) -> Seq<u8> {
        self.data.subrange(self.plus_lo(), self.plus_hi())
    }

    pub open spec fn qual_bytes(self) -> Seq<u8> {
        self.data.subrange(self.qual_lo(), self.qual_hi())
    }

    pub open spec fn marker(self) -> u8 {
        if self.is_fasta() {
            '>' as u8
        } else {
            '@' as u8
        }
    }

    pub open spec fn valid_header(self) -> bool {
        self.data[0] == self.marker()
    }

    /// A record is valid when it is non-empty and every sequence byte
    /// belongs to the nucleotide alphabet.
    pub open spec fn valid(self) -> bool {
        &&& !self.empty()
        &&& forall|i: int|
            0 <= i < self.seq_bytes().len() ==> is_valid_base(#[trigger] self.seq_bytes()[i])
    }

    // -----------------------------------------------------------------------
    // Models of the in-place edits
    // -----------------------------------------------------------------------

    /// The record with the sequence field case-folded in place.
    pub open spec fn folded_upper(self) -> RecordView {
        RecordView {
            data: self.data.subrange(0, self.seq_lo()) + upper_bytes(self.seq_bytes())
                + self.data.subrange(self.seq_hi(), self.data.len() as int),
            ..self
        }
    }

    /// The record with every sequence byte outside the keep set replaced
    /// by `N`.
    pub open spec fn fixed(self) -> RecordView {
        RecordView {
            data: self.data.subrange(0, self.seq_lo()) + fixed_bytes(self.seq_bytes())
                + self.data.subrange(self.seq_hi(), self.data.len() as int),
            ..self
        }
    }

    /// The record with the sequence field reverse-complemented and, for
    /// FASTQ, the quality field reversed in lock-step.
    pub open spec fn rev_comped(self) -> RecordView {
        if self.is_fastq() {
            RecordView {
                data: self.data.subrange(0, self.seq_lo()) + rev_comp_bytes(self.seq_bytes())
                    + self.data.subrange(self.seq_hi(), self.qual_lo())
                    + rev_bytes(self.qual_bytes())
                    + self.data.subrange(self.qual_hi(), self.data.len() as int),
                ..self
            }
        } else {
            RecordView {
                data: self.data.subrange(0, self.seq_lo()) + rev_comp_bytes(self.seq_bytes())
                    + self.data.subrange(self.seq_hi(), self.data.len() as int),
                ..self
            }
        }
    }

    /// The record after `k` bytes are removed from the front of the
    /// sequence range and, for FASTQ, from the front of the quality range.
    /// Meaningful when `k <= self.seq` and, for FASTQ, `k <= self.qual_len()`.
    pub open spec fn trimmed_left(self, k: nat) -> RecordView {
        let v1 = RecordView {
            data: self.data.subrange(0, self.seq_lo())
                + self.data.subrange(self.seq_lo() + k, self.data.len() as int),
            seq: (self.seq - k) as nat,
            ..self
        };
        if self.is_fastq() {
            RecordView {
                data: v1.data.subrange(0, v1.qual_lo())
                    + v1.data.subrange(v1.qual_lo() + k, v1.data.len() as int),
                qual: Some((self.qual_len() - k) as nat),
                ..v1
            }
        } else {
            v1
        }
    }

    /// The record after `k` bytes are removed from the back of the
    /// sequence range and, for FASTQ, from the back of the quality range.
    /// Meaningful when `k <= self.seq` and, for FASTQ, `k <= self.qual_len()`.
    pub open spec fn trimmed_right(self, k: nat) -> RecordView {
        let v1 = RecordView {
            data: self.data.subrange(0, self.seq_hi() - k)
                + self.data.subrange(self.seq_hi(), self.data.len() as int),
            seq: (self.seq - k) as nat,
            ..self
        };
        if self.is_fastq() {
            RecordView {
                data: v1.data.subrange(0, v1.qual_hi() - k)
                    + v1.data.subrange(v1.qual_hi(), v1.data.len() as int),
                qual: Some((self.qual_len() - k) as nat),
                ..v1
            }
        } else {
            v1
        }
    }

    /// The record after `b` is spliced into the sequence range at offset
    /// `pos`, before the quality range is touched.
    pub open spec fn seq_inserted(self, b: Seq<u8>, pos: nat) -> RecordView {
        RecordView {
            data: self.data.subrange(0, self.seq_lo() + pos) + b
                + self.data.subrange(self.seq_lo() + pos, self.data.len() as int),
            seq: (self.seq + b.len()) as nat,
            ..self
        }
    }

    /// The record after a run of `n` default quality bytes is spliced into
    /// the quality range at offset `pos`.
    pub open spec fn qual_inserted(self, n: nat, pos: nat) -> RecordView {
        RecordView {
            data: self.data.subrange(0, self.qual_lo() + pos)
                + Seq::new(n, |i: int| 'F' as u8)
                + self.data.subrange(self.qual_lo() + pos, self.data.len() as int),
            qual: Some((self.qual_len() + n) as nat),
            ..self
        }
    }

    /// The record after a full insertion: the sequence splice, then for
    /// FASTQ the aligned quality splice.
    pub open spec fn inserted(self, b: Seq<u8>, pos: nat) -> RecordView {
        let v1 = self.seq_inserted(b, pos);
        if self.is_fastq() {
            v1.qual_inserted(b.len(), pos)
        } else {
            v1
        }
    }
}

pub open spec fn fixed_bytes(s: Seq<u8>) -> Seq<u8> {
    Seq::new(s.len(), |i: int| fix_byte(s[i]))
}

// ---------------------------------------------------------------------------
// The record itself
// ---------------------------------------------------------------------------

/// One FASTA or FASTQ entry: a single owned buffer holding the record's
/// text (marker byte included) and the lengths that delimit its fields.
#[derive(Debug)]
pub struct Record {
    data: Vec<u8>,
    id: usize,
    seq: usize,
    plus: Option<usize>,
    qual: Option<usize>,
}

impl View for Record {
    type V = RecordView;

    closed spec fn view(&self) -> RecordView {
        RecordView {
            data: self.data@,
            id: self.id as nat,
            seq: self.seq as nat,
            plus: match self.plus {
                Some(p) => Some(p as nat),
                None => None,
            },
            qual: match self.qual {
                Some(q) => Some(q as nat),
                None => None,
            },
        }
    }
}

impl Record {
    /// Creates a blank record with no buffer and no fields.
    pub fn new() -> (r: Self)
        ensures
            r@.blank(),
            r@.inv(),
    {
        Self { data: Vec::new(), id: 0, seq: 0, plus: None, qual: None }
    }

    /// Creates a FASTA record from a buffer whose endpoints are already
    /// known. `data` holds the marker byte followed by the identifier and
    /// sequence lines; `id` and `seq` count each line with its terminator.
    pub fn new_fasta(data: Vec<u8>, id: usize, seq: usize) -> (r: Self)
        ensures
            r@ == (RecordView {
                data: data@,
                id: id as nat,
                seq: seq as nat,
                plus: None,
                qual: None,
            }),
    {
        Self { data, id, seq, plus: None, qual: None }
    }

    /// Creates a FASTQ record from a buffer whose endpoints are already
    /// known; the four lengths count each line with its terminator.
    pub fn new_fastq(data: Vec<u8>, id: usize, seq: usize, plus: usize, qual: usize) -> (r: Self)
        ensures
            r@ == (RecordView {
                data: data@,
                id: id as nat,
                seq: seq as nat,
                plus: Some(plus as nat),
                qual: Some(qual as nat),
            }),
    {
        Self { data, id, seq, plus: Some(plus), qual: Some(qual) }
    }

    /// Checks whether the record is FASTA: no separator and no quality.
    pub fn is_fasta(&self) -> (r: bool)
        ensures
            r == self@.is_fasta(),
    {
        self.plus.is_none() && self.qual.is_none()
    }

    /// Checks whether the record is FASTQ: separator and quality present.
    pub fn is_fastq(&self) -> (r: bool)
        ensures
            r == self@.is_fastq(),
    {
        self.plus.is_some() && self.qual.is_some()
    }

    /// Checks whether the record is empty: either delimiting length is zero.
    pub fn empty(&self) -> (r: bool)
        ensures
            r == self@.empty(),
    {
        self.id == 0 || self.seq == 0
    }

    /// Checks whether the buffer starts with the marker the format demands.
    pub fn valid_header(&self) -> (r: bool)
        requires
            self@.wf(),
        ensures
            r == self@.valid_header(),
    {
        if self.is_fasta() {
            self.data[0] == '>' as u8
        } else {
            self.data[0] == '@' as u8
        }
    }

    /// The half-open range of the identifier within the buffer.
    pub fn id_range(&self) -> (r: core::ops::Range<usize>)
        ensures
            r.start == 1 && r.end == self@.id,
    {
        1..self.id
    }

    /// The half-open range of the sequence within the buffer.
    pub fn seq_range(&self) -> (r: core::ops::Range<usize>)
        requires
            self@.seq_hi() < usize::MAX,
        ensures
            r.start == self@.seq_lo() && r.end == self@.seq_hi(),
    {
        1 + self.id..self.id + self.seq
    }

    /// The half-open range of the separator line, when present.
    pub fn plus_range(&self) -> (r: Option<core::ops::Range<usize>>)
        requires
            self@.plus_hi() < usize::MAX,
        ensures
            r is Some <==> self@.plus is Some,
            r matches Some(rg) ==> rg.start == self@.plus_lo() && rg.end == self@.plus_hi(),
    {
        match self.plus {
            Some(plus) => Some(1 + self.id + self.seq..self.id + self.seq + plus),
            None => None,
        }
    }

    /// The half-open range of the quality line, when present.
    pub fn qual_range(&self) -> (r: Option<core::ops::Range<usize>>)
        requires
            self@.qual_hi() < usize::MAX,
        ensures
            r is Some <==> (self@.plus is Some && self@.qual is Some),
            r matches Some(rg) ==> rg.start == self@.qual_lo() && rg.end == self@.qual_hi(),
    {
        let plus = match self.plus {
            Some(plus) => plus,
            None => { return None; },
        };
        match self.qual {
            Some(qual) => Some(
                1 + self.id + self.seq + plus..self.id + self.seq + plus + qual,
            ),
            None => None,
        }
    }

    /// The identifier, without its line terminator.
    pub fn id(&self) -> (r: &[u8])
        requires
            self@.wf(),
            self@.id >= 1,
        ensures
            r@ == self@.id_bytes(),
    {
        vstd::slice::slice_subrange(self.data.as_slice(), 1, self.id)
    }

    /// The sequence, without its line terminator.
    pub fn seq(&self) -> (r: &[u8])
        requires
            self@.wf(),
            self@.seq >= 1,
        ensures
            r@ == self@.seq_bytes(),
    {
        proof {
            vstd::std_specs::vec::axiom_spec_len(&self.data);
        }
        vstd::slice::slice_subrange(self.data.as_slice(), 1 + self.id, self.id + self.seq)
    }

    /// The separator line of a FASTQ record, without its terminator.
    pub fn plus(&self) -> (r: Option<&[u8]>)
        requires
            self@.wf(),
            self@.plus matches Some(p) ==> p >= 1,
        ensures
            r is Some <==> self@.is_fastq(),
            r matches Some(s) ==> s@ == self@.plus_bytes(),
    {
        proof {
            vstd::std_specs::vec::axiom_spec_len(&self.data);
        }
        match self.plus {
            Some(plus) => Some(
                vstd::slice::slice_subrange(
                    self.data.as_slice(),
                    1 + self.id + self.seq,
                    self.id + self.seq + plus,
                ),
            ),
            None => None,
        }
    }

    /// The quality line of a FASTQ record, without its terminator.
    pub fn qual(&self) -> (r: Option<&[u8]>)
        requires
            self@.wf(),
            self@.qual matches Some(q) ==> q >= 1,
        ensures
            r is Some <==> self@.is_fastq(),
            r matches Some(s) ==> s@ == self@.qual_bytes(),
    {
        proof {
            vstd::std_specs::vec::axiom_spec_len(&self.data);
        }
        let plus = match self.plus {
            Some(plus) => plus,
            None => { return None; },
        };
        match self.qual {
            Some(qual) => Some(
                vstd::slice::slice_subrange(
                    self.data.as_slice(),
                    1 + self.id + self.seq + plus,
                    self.id + self.seq + plus + qual,
                ),
            ),
            None => None,
        }
    }

    /// The whole buffer, marker byte included.
    pub fn data(&self) -> (r: &[u8])
        ensures
            r@ == self@.data,
    {
        self.data.as_slice()
    }

    /// Checks that the record is non-empty and that every sequence byte
    /// belongs to the nucleotide alphabet.
    pub fn valid(&self) -> (r: bool)
        requires
            self@.inv(),
        ensures
            r == self@.valid(),
    {
        if self.empty() {
            false
        } else {
            self.valid_sequence()
        }
    }

    /// Checks every sequence byte against the nucleotide alphabet.
    fn valid_sequence(&self) -> (r: bool)
        requires
            self@.wf(),
            self@.seq >= 1,
        ensures
            r == forall|i: int|
                0 <= i < self@.seq_bytes().len() ==> is_valid_base(#[trigger] self@.seq_bytes()[i]),
    {
        let s = self.seq();
        let n: usize = s.len();
        let mut i: usize = 0;
        while i < n
            invariant
                n == s@.len(),
                0 <= i <= n,
                s@ == self@.seq_bytes(),
                forall|j: int| 0 <= j < i ==> is_valid_base(#[trigger] s@[j]),
            decreases n - i,
        {
            let b = *vstd::slice::slice_index_get(s, i);
            if !(b == 'A' as u8 || b == 'a' as u8 || b == 'C' as u8 || b == 'c' as u8 || b == 'G' as u8 || b == 'g' as u8
                || b == 'T' as u8 || b == 't' as u8 || b == 'N' as u8 || b == 'n' as u8 || b == 'U' as u8 || b == 'u' as u8) {
                return false;
            }
            i += 1;
        }
        true
    }

    /// A fresh copy of the sequence with every byte case-folded to upper
    /// case; the record itself is unchanged.
    pub fn seq_upper(&self) -> (r: Vec<u8>)
        requires
            self@.wf(),
            self@.seq >= 1,
        ensures
            r@ == upper_bytes(self@.seq_bytes()),
    {
        let s = self.seq();
        let n: usize = s.len();
        let mut out: Vec<u8> = Vec::with_capacity(n);
        let mut i: usize = 0;
        while i < n
            invariant
                0 <= i <= n,
                n == s@.len(),
                s@ == self@.seq_bytes(),
                out@ == upper_bytes(s@.subrange(0, i as int)),
            decreases n - i,
        {
            let b = *vstd::slice::slice_index_get(s, i);
            out.push(b & 0xdf);
            proof {
                assert(out@ =~= upper_bytes(s@.subrange(0, i + 1)));
            }
            i += 1;
        }
        proof {
            assert(s@.subrange(0, n as int) =~= s@);
        }
        out
    }

    /// A fresh reverse-complement of the sequence; the record itself is
    /// unchanged.
    pub fn seq_rev_comp(&self) -> (r: Vec<u8>)
        requires
            self@.wf(),
            self@.seq >= 1,
        ensures
            r@ == rev_comp_bytes(self@.seq_bytes()),
    {
        let s = self.seq();
        let n: usize = s.len();
        let mut out: Vec<u8> = Vec::with_capacity(n);
        let mut i: usize = 0;
        while i < n
            invariant
                0 <= i <= n,
                n == s@.len(),
                s@ == self@.seq_bytes(),
                out@ == rev_comp_bytes(s@).take(i as int),
            decreases n - i,
        {
            let b = *vstd::slice::slice_index_get(s, n - 1 - i);
            out.push(complement(b));
            proof {
                assert(out@ =~= rev_comp_bytes(s@).take(i + 1));
            }
            i += 1;
        }
        proof {
            assert(rev_comp_bytes(s@).take(n as int) =~= rev_comp_bytes(s@));
        }
        out
    }

    /// Replaces every sequence byte outside the keep set with `N`, in
    /// place.
    pub fn fix(&mut self)
        requires
            old(self)@.wf(),
            old(self)@.seq >= 1,
        ensures
            final(self)@ == old(self)@.fixed(),
            final(self)@.wf(),
            !old(self)@.empty() ==> final(self)@.valid(),
    {
        let n: usize = self.data.len();
        let lo: usize = self.id + 1;
        let hi: usize = self.id + self.seq;
        let mut out: Vec<u8> = Vec::with_capacity(n);
        copy_range(&self.data, 0, lo, &mut out);
        let mut i: usize = lo;
        while i < hi
            invariant
                lo <= i <= hi,
                lo == self@.seq_lo(),
                hi == self@.seq_hi(),
                hi <= self@.data.len(),
                out@ == self@.data.subrange(0, lo as int)
                    + fixed_bytes(self@.data.subrange(lo as int, i as int)),
            decreases hi - i,
        {
            let b: u8 = self.data[i];
            out.push(fix_one(b));
            proof {
                assert(out@ =~= self@.data.subrange(0, lo as int)
                    + fixed_bytes(self@.data.subrange(lo as int, i + 1)));
            }
            i += 1;
        }
        copy_range(&self.data, hi, n, &mut out);
        self.data = out;
        proof {
            assert(self@.data =~= old(self)@.fixed().data);
            assert(self@ =~= old(self)@.fixed());
            assert(self@.seq_bytes() =~= fixed_bytes(old(self)@.seq_bytes()));
            assert forall|j: int| 0 <= j < self@.seq_bytes().len() implies is_valid_base(
                #[trigger] self@.seq_bytes()[j],
            ) by {
                assert(self@.seq_bytes()[j] == fix_byte(old(self)@.seq_bytes()[j]));
            }
        }
    }

    /// Case-folds the sequence to upper case, in place.
    pub fn upper(&mut self)
        requires
            old(self)@.wf(),
            old(self)@.seq >= 1,
        ensures
            final(self)@ == old(self)@.folded_upper(),
            final(self)@.wf(),
    {
        let n: usize = self.data.len();
        let lo: usize = self.id + 1;
        let hi: usize = self.id + self.seq;
        let mut out: Vec<u8> = Vec::with_capacity(n);
        copy_range(&self.data, 0, lo, &mut out);
        let mut i: usize = lo;
        while i < hi
            invariant
                lo <= i <= hi,
                lo == self@.seq_lo(),
                hi == self@.seq_hi(),
                hi <= self@.data.len(),
                out@ == self@.data.subrange(0, lo as int)
                    + upper_bytes(self@.data.subrange(lo as int, i as int)),
            decreases hi - i,
        {
            let b: u8 = self.data[i];
            out.push(b & 0xdf);
            proof {
                assert(out@ =~= self@.data.subrange(0, lo as int)
                    + upper_bytes(self@.data.subrange(lo as int, i + 1)));
            }
            i += 1;
        }
        copy_range(&self.data, hi, n, &mut out);
        self.data = out;
        proof {
            assert(self@.data =~= old(self)@.folded_upper().data);
            assert(self@ =~= old(self)@.folded_upper());
        }
    }

    /// Reverse-complements the sequence in place and, for FASTQ, reverses
    /// the quality bytes so they stay aligned with the bases.
    pub fn rev_comp(&mut self)
        requires
            old(self)@.wf(),
            old(self)@.seq >= 1,
            old(self)@.qual matches Some(q) ==> q >= 1,
        ensures
            final(self)@ == old(self)@.rev_comped(),
            final(self)@.wf(),
    {
        let n: usize = self.data.len();
        let lo: usize = self.id + 1;
        let hi: usize = self.id + self.seq;
        let mut out: Vec<u8> = Vec::with_capacity(n);
        copy_range(&self.data, 0, lo, &mut out);
        let mut i: usize = 0;
        let m: usize = hi - lo;
        while i < m
            invariant
                0 <= i <= m,
                m == hi - lo,
                lo == self@.seq_lo(),
                hi == self@.seq_hi(),
                hi <= self@.data.len(),
                out@ == self@.data.subrange(0, lo as int)
                    + rev_comp_bytes(self@.seq_bytes()).take(i as int),
            decreases m - i,
        {
            let b: u8 = self.data[hi - 1 - i];
            out.push(complement(b));
            proof {
                assert(out@ =~= self@.data.subrange(0, lo as int)
                    + rev_comp_bytes(self@.seq_bytes()).take(i + 1));
            }
            i += 1;
        }
        proof {
            assert(out@ =~= self@.data.subrange(0, lo as int)
                + rev_comp_bytes(self@.seq_bytes()));
        }
        match (self.plus, self.qual) {
            (Some(plus), Some(qual)) => {
                let qlo: usize = self.id + self.seq + plus + 1;
                let qhi: usize = self.id + self.seq + plus + qual;
                copy_range(&self.data, hi, qlo, &mut out);
                let base: usize = out.len();
                let mut k: usize = 0;
                let qm: usize = qhi - qlo;
                while k < qm
                    invariant
                        0 <= k <= qm,
                        qm == qhi - qlo,
                        qlo == self@.qual_lo(),
                        qhi == self@.qual_hi(),
                        qhi <= self@.data.len(),
                        base == qlo,
                        out@ == self@.data.subrange(0, self@.seq_lo())
                            + rev_comp_bytes(self@.seq_bytes())
                            + self@.data.subrange(self@.seq_hi(), self@.qual_lo())
                            + rev_bytes(self@.qual_bytes()).take(k as int),
                    decreases qm - k,
                {
                    let b: u8 = self.data[qhi - 1 - k];
                    out.push(b);
                    proof {
                        assert(out@ =~= self@.data.subrange(0, self@.seq_lo())
                            + rev_comp_bytes(self@.seq_bytes())
                            + self@.data.subrange(self@.seq_hi(), self@.qual_lo())
                            + rev_bytes(self@.qual_bytes()).take(k + 1));
                    }
                    k += 1;
                }
                copy_range(&self.data, qhi, n, &mut out);
                self.data = out;
                proof {
                    assert(self@.data =~= old(self)@.rev_comped().data);
                    assert(self@ =~= old(self)@.rev_comped());
                }
            },
            _ => {
                copy_range(&self.data, hi, n, &mut out);
                self.data = out;
                proof {
                    assert(self@.data =~= old(self)@.rev_comped().data);
                    assert(self@ =~= old(self)@.rev_comped());
                }
            },
        }
    }
}

impl Record {
    /// Removes `size` bytes from the front of the sequence range and, for
    /// FASTQ, from the front of the quality range. Fails with `OutOfRange`
    /// when `size` exceeds the stored sequence length.
    pub fn trim_left(&mut self, size: usize) -> (r: Result<(), FxError>)
        requires
            old(self)@.wf(),
            old(self)@.is_fastq() && size <= old(self)@.seq ==> size <= old(self)@.qual_len(),
        ensures
            size > old(self)@.seq ==> (r matches Err(e) && e == FxError::OutOfRange)
                && final(self)@ == old(self)@,
            size <= old(self)@.seq ==> r is Ok
                && final(self)@ == old(self)@.trimmed_left(size as nat)
                && final(self)@.wf()
                && final(self)@.seq == old(self)@.seq - size,
            size < old(self)@.seq ==> final(self)@.seq_bytes() == old(self)@.seq_bytes().skip(
                size as int,
            ) && old(self)@.seq_bytes() == old(self)@.seq_bytes().take(size as int)
                + final(self)@.seq_bytes(),
    {
        if size > self.seq {
            return Err(FxError::OutOfRange);
        }
        let n: usize = self.data.len();
        let start: usize = self.id + 1;
        let mut out: Vec<u8> = Vec::with_capacity(n - size);
        copy_range(&self.data, 0, start, &mut out);
        copy_range(&self.data, start + size, n, &mut out);
        self.data = out;
        self.seq = self.seq - size;
        match (self.plus, self.qual) {
            (Some(plus), Some(qual)) => {
                let n2: usize = self.data.len();
                let qstart: usize = self.id + self.seq + plus + 1;
                let mut out2: Vec<u8> = Vec::with_capacity(n2 - size);
                copy_range(&self.data, 0, qstart, &mut out2);
                copy_range(&self.data, qstart + size, n2, &mut out2);
                self.data = out2;
                self.qual = Some(qual - size);
            },
            _ => {},
        }
        proof {
            assert(self@ =~= old(self)@.trimmed_left(size as nat));
            if size < old(self)@.seq {
                assert(self@.seq_bytes() =~= old(self)@.seq_bytes().skip(size as int));
                assert(old(self)@.seq_bytes() =~= old(self)@.seq_bytes().take(size as int)
                    + self@.seq_bytes());
            }
        }
        Ok(())
    }

    /// Removes `size` bytes from the back of the sequence range and, for
    /// FASTQ, from the back of the quality range. Fails with `OutOfRange`
    /// when `size` exceeds the stored sequence length.
    pub fn trim_right(&mut self, size: usize) -> (r: Result<(), FxError>)
        requires
            old(self)@.wf(),
            old(self)@.is_fastq() && size <= old(self)@.seq ==> size <= old(self)@.qual_len(),
        ensures
            size > old(self)@.seq ==> (r matches Err(e) && e == FxError::OutOfRange)
                && final(self)@ == old(self)@,
            size <= old(self)@.seq ==> r is Ok
                && final(self)@ == old(self)@.trimmed_right(size as nat)
                && final(self)@.wf()
                && final(self)@.seq == old(self)@.seq - size,
            size < old(self)@.seq ==> final(self)@.seq_bytes() == old(self)@.seq_bytes().take(
                old(self)@.seq_bytes().len() - size,
            ) && old(self)@.seq_bytes() == final(self)@.seq_bytes()
                + old(self)@.seq_bytes().skip(old(self)@.seq_bytes().len() - size),
    {
        if size > self.seq {
            return Err(FxError::OutOfRange);
        }
        let n: usize = self.data.len();
        let seq_end: usize = self.id + self.seq;
        let trim_start: usize = seq_end - size;
        let mut out: Vec<u8> = Vec::with_capacity(n - size);
        copy_range(&self.data, 0, trim_start, &mut out);
        copy_range(&self.data, seq_end, n, &mut out);
        self.data = out;
        self.seq = self.seq - size;
        match (self.plus, self.qual) {
            (Some(plus), Some(qual)) => {
                let n2: usize = self.data.len();
                let qual_end: usize = self.id + self.seq + plus + qual;
                let trim_start2: usize = qual_end - size;
                let mut out2: Vec<u8> = Vec::with_capacity(n2 - size);
                copy_range(&self.data, 0, trim_start2, &mut out2);
                copy_range(&self.data, qual_end, n2, &mut out2);
                self.data = out2;
                self.qual = Some(qual - size);
            },
            _ => {},
        }
        proof {
            assert(self@ =~= old(self)@.trimmed_right(size as nat));
            if size < old(self)@.seq {
                assert(self@.seq_bytes() =~= old(self)@.seq_bytes().take(
                    old(self)@.seq_bytes().len() - size,
                ));
                assert(old(self)@.seq_bytes() =~= self@.seq_bytes()
                    + old(self)@.seq_bytes().skip(old(self)@.seq_bytes().len() - size));
            }
        }
        Ok(())
    }

    /// Splices `seq` into the sequence range at offset `pos` and, for
    /// FASTQ, a same-length run of the default quality byte at the aligned
    /// offset of the quality range. Fails with `OutOfRange` when `pos` is
    /// not strictly below the stored sequence length; for FASTQ a `pos`
    /// beyond the stored quality length also fails, after the sequence
    /// splice has already happened.
    pub fn insert_seq(&mut self, seq: &[u8], pos: usize) -> (r: Result<(), FxError>)
        requires
            old(self)@.wf(),
            old(self)@.data.len() + seq@.len() <= usize::MAX,
            old(self)@.is_fastq() ==> old(self)@.data.len() + seq@.len() + seq@.len()
                <= usize::MAX,
        ensures
            pos >= old(self)@.seq ==> (r matches Err(e) && e == FxError::OutOfRange)
                && final(self)@ == old(self)@,
            pos < old(self)@.seq && old(self)@.is_fasta() ==> r is Ok
                && final(self)@ == old(self)@.seq_inserted(seq@, pos as nat),
            pos < old(self)@.seq && old(self)@.is_fastq() && pos <= old(self)@.qual_len()
                ==> r is Ok && final(self)@ == old(self)@.inserted(seq@, pos as nat),
            pos < old(self)@.seq && old(self)@.is_fastq() && pos > old(self)@.qual_len()
                ==> (r matches Err(e) && e == FxError::OutOfRange)
                && final(self)@ == old(self)@.seq_inserted(seq@, pos as nat),
            r is Ok ==> final(self)@.wf(),
            pos < old(self)@.seq ==> final(self)@.seq == old(self)@.seq + seq@.len(),
    {
        if pos >= self.seq {
            return Err(FxError::OutOfRange);
        }
        let n: usize = self.data.len();
        let at: usize = self.id + 1 + pos;
        let mut out: Vec<u8> = Vec::with_capacity(n + seq.len());
        copy_range(&self.data, 0, at, &mut out);
        out.extend_from_slice(seq);
        copy_range(&self.data, at, n, &mut out);
        self.data = out;
        self.seq = self.seq + seq.len();
        proof {
            assert(self@ =~= old(self)@.seq_inserted(seq@, pos as nat));
        }
        let r = self.insert_qual(seq.len(), pos);
        proof {
            if pos < old(self)@.seq && old(self)@.is_fastq() && pos <= old(self)@.qual_len() {
                assert(self@ =~= old(self)@.inserted(seq@, pos as nat));
            }
        }
        r
    }

    /// Splices `insert_size` copies of the default quality byte into the
    /// quality range at offset `pos`; FASTA records are left untouched.
    fn insert_qual(&mut self, insert_size: usize, pos: usize) -> (r: Result<(), FxError>)
        requires
            old(self)@.wf(),
            old(self)@.qual is Some ==> old(self)@.data.len() + insert_size <= usize::MAX,
        ensures
            old(self)@.qual is None ==> r is Ok && final(self)@ == old(self)@,
            old(self)@.qual matches Some(q) && pos > q ==> (r matches Err(e)
                && e == FxError::OutOfRange) && final(self)@ == old(self)@,
            old(self)@.qual matches Some(q) && pos <= q ==> r is Ok
                && final(self)@ == old(self)@.qual_inserted(insert_size as nat, pos as nat),
    {
        match (self.plus, self.qual) {
            (Some(plus), Some(qual)) => {
                if pos > qual {
                    return Err(FxError::OutOfRange);
                }
                let n: usize = self.data.len();
                let at: usize = self.id + self.seq + plus + 1 + pos;
                let mut out: Vec<u8> = Vec::with_capacity(n + insert_size);
                copy_range(&self.data, 0, at, &mut out);
                fill_bytes('F' as u8, insert_size, &mut out);
                copy_range(&self.data, at, n, &mut out);
                self.data = out;
                self.qual = Some(qual + insert_size);
                proof {
                    assert(self@ =~= old(self)@.qual_inserted(insert_size as nat, pos as nat));
                }
                Ok(())
            },
            _ => Ok(()),
        }
    }

    /// Splices `seq` at the very start of the sequence.
    pub fn insert_seq_left(&mut self, seq: &[u8]) -> (r: Result<(), FxError>)
        requires
            old(self)@.wf(),
            old(self)@.data.len() + seq@.len() <= usize::MAX,
            old(self)@.is_fastq() ==> old(self)@.data.len() + seq@.len() + seq@.len()
                <= usize::MAX,
        ensures
            old(self)@.seq == 0 ==> (r matches Err(e) && e == FxError::OutOfRange)
                && final(self)@ == old(self)@,
            old(self)@.seq >= 1 ==> r is Ok && final(self)@ == old(self)@.inserted(seq@, 0)
                && final(self)@.wf(),
    {
        self.insert_seq(seq, 0)
    }

    /// Splices `seq` just before the last byte of the sequence range.
    pub fn insert_seq_right(&mut self, seq: &[u8]) -> (r: Result<(), FxError>)
        requires
            old(self)@.wf(),
            old(self)@.seq >= 1,
            old(self)@.data.len() + seq@.len() <= usize::MAX,
            old(self)@.is_fastq() ==> old(self)@.data.len() + seq@.len() + seq@.len()
                <= usize::MAX,
        ensures
            old(self)@.is_fastq() && old(self)@.seq - 1 > old(self)@.qual_len() ==> (r matches
                Err(e) && e == FxError::OutOfRange)
                && final(self)@ == old(self)@.seq_inserted(seq@, (old(self)@.seq - 1) as nat),
            old(self)@.is_fastq() && old(self)@.seq - 1 <= old(self)@.qual_len() ==> r is Ok
                && final(self)@ == old(self)@.inserted(seq@, (old(self)@.seq - 1) as nat)
                && final(self)@.wf(),
            old(self)@.is_fasta() ==> r is Ok
                && final(self)@ == old(self)@.inserted(seq@, (old(self)@.seq - 1) as nat)
                && final(self)@.wf(),
    {
        let p: usize = self.seq - 1;
        self.insert_seq(seq, p)
    }
}

// ---------------------------------------------------------------------------
// Construction from discrete parts
// ---------------------------------------------------------------------------

/// The reasons a FASTA identifier/sequence pair is rejected: the
/// identifier starts with the marker or ends with a terminator, or the
/// sequence ends with a terminator.
pub open spec fn bad_fasta_parts(id: Seq<u8>, s: Seq<u8>) -> bool {
    ||| (id.len() >= 1 && id[0] == '>' as u8)
    ||| (id.len() >= 1 && id[id.len() - 1] == '\n' as u8)
    ||| (s.len() >= 1 && s[s.len() - 1] == '\n' as u8)
}

/// The reasons FASTQ parts are rejected: a marker-prefixed identifier, a
/// sequence/quality length mismatch, or a terminator at the end of any
/// part.
pub open spec fn bad_fastq_parts(id: Seq<u8>, s: Seq<u8>, q: Seq<u8>) -> bool {
    ||| (id.len() >= 1 && id[0] == '@' as u8)
    ||| s.len() != q.len()
    ||| (id.len() >= 1 && id[id.len() - 1] == '\n' as u8)
    ||| (s.len() >= 1 && s[s.len() - 1] == '\n' as u8)
    ||| (q.len() >= 1 && q[q.len() - 1] == '\n' as u8)
}

/// The exact text of a FASTA record built from parts.
pub open spec fn fasta_parts_data(id: Seq<u8>, s: Seq<u8>) -> Seq<u8> {
    seq!['>' as u8] + id + seq!['\n' as u8] + s + seq!['\n' as u8]
}

/// The exact text of a FASTQ record built from parts.
pub open spec fn fastq_parts_data(id: Seq<u8>, s: Seq<u8>, q: Seq<u8>) -> Seq<u8> {
    seq!['@' as u8] + id + seq!['\n' as u8] + s + seq!['\n' as u8, '+' as u8, '\n' as u8] + q
        + seq!['\n' as u8]
}

impl Record {
    /// Builds a FASTA record from an identifier and a sequence, validating
    /// both and computing the endpoints. The rendered buffer is exactly
    /// the marker, the identifier line and the sequence line.
    pub fn new_fasta_from_parts(id: &[u8], seq: &[u8]) -> (r: Result<Record, FxError>)
        requires
            id@.len() + seq@.len() + 2 <= usize::MAX,
        ensures
            r is Err <==> bad_fasta_parts(id@, seq@),
            r matches Err(e) ==> e == FxError::MalformedInput,
            r matches Ok(rec) ==> rec@ == (RecordView {
                data: fasta_parts_data(id@, seq@),
                id: (id@.len() + 1) as nat,
                seq: (seq@.len() + 1) as nat,
                plus: None,
                qual: None,
            }) && rec@.wf() && !rec@.empty(),
    {
        if id.len() > 0 && *vstd::slice::slice_index_get(id, 0) == '>' as u8 {
            return Err(FxError::MalformedInput);
        }
        if id.len() > 0 && *vstd::slice::slice_index_get(id, id.len() - 1) == '\n' as u8 {
            return Err(FxError::MalformedInput);
        }
        if seq.len() > 0 && *vstd::slice::slice_index_get(seq, seq.len() - 1) == '\n' as u8 {
            return Err(FxError::MalformedInput);
        }
        let mut data: Vec<u8> = Vec::with_capacity(id.len() + seq.len() + 2);
        data.push('>' as u8);
        data.extend_from_slice(id);
        data.push('\n' as u8);
        data.extend_from_slice(seq);
        data.push('\n' as u8);
        let id_idx: usize = id.len() + 1;
        let seq_idx: usize = seq.len() + 1;
        proof {
            assert(data@ =~= fasta_parts_data(id@, seq@));
        }
        Ok(Record { data, id: id_idx, seq: seq_idx, plus: None, qual: None })
    }

    /// Builds a FASTQ record from an identifier, a sequence and a quality
    /// string, validating all three and computing the endpoints. The
    /// rendered buffer is exactly the marker and the four lines.
    pub fn new_fastq_from_parts(id: &[u8], seq: &[u8], qual: &[u8]) -> (r: Result<Record, FxError>)
        requires
            id@.len() + seq@.len() + qual@.len() + 5 <= usize::MAX,
        ensures
            r is Err <==> bad_fastq_parts(id@, seq@, qual@),
            r matches Err(e) ==> e == FxError::MalformedInput,
            r matches Ok(rec) ==> rec@ == (RecordView {
                data: fastq_parts_data(id@, seq@, qual@),
                id: (id@.len() + 1) as nat,
                seq: (seq@.len() + 1) as nat,
                plus: Some(2),
                qual: Some((qual@.len() + 1) as nat),
            }) && rec@.wf() && !rec@.empty(),
    {
        if id.len() > 0 && *vstd::slice::slice_index_get(id, 0) == '@' as u8 {
            return Err(FxError::MalformedInput);
        }
        if seq.len() != qual.len() {
            return Err(FxError::MalformedInput);
        }
        if id.len() > 0 && *vstd::slice::slice_index_get(id, id.len() - 1) == '\n' as u8 {
            return Err(FxError::MalformedInput);
        }
        if seq.len() > 0 && *vstd::slice::slice_index_get(seq, seq.len() - 1) == '\n' as u8 {
            return Err(FxError::MalformedInput);
        }
        if qual.len() > 0 && *vstd::slice::slice_index_get(qual, qual.len() - 1) == '\n' as u8 {
            return Err(FxError::MalformedInput);
        }
        let mut data: Vec<u8> = Vec::with_capacity(id.len() + seq.len() + qual.len() + 5);
        data.push('@' as u8);
        data.extend_from_slice(id);
        data.push('\n' as u8);
        data.extend_from_slice(seq);
        data.push('\n' as u8);
        data.push('+' as u8);
        data.push('\n' as u8);
        data.extend_from_slice(qual);
        data.push('\n' as u8);
        let id_idx: usize = id.len() + 1;
        let seq_idx: usize = seq.len() + 1;
        let qual_idx: usize = qual.len() + 1;
        proof {
            assert(data@ =~= fastq_parts_data(id@, seq@, qual@));
        }
        Ok(
            Record {
                data,
                id: id_idx,
                seq: seq_idx,
                plus: Some(2),
                qual: Some(qual_idx),
            },
        )
    }
}

// ---------------------------------------------------------------------------
// Laws of the mutation algebra
// ---------------------------------------------------------------------------

/// Case-folding is idempotent: folding an already folded sequence changes
/// nothing, for every valid record.
pub proof fn lemma_seq_upper_idempotent(r: RecordView)
    requires
        r.inv(),
        r.valid(),
    ensures
        upper_bytes(upper_bytes(r.seq_bytes())) == upper_bytes(r.seq_bytes()),
{
    lemma_upper_bytes_idempotent(r.seq_bytes());
}

/// Case-folding any byte sequence twice gives the fold of the sequence.
pub proof fn lemma_upper_bytes_idempotent(s: Seq<u8>)
    ensures
        upper_bytes(upper_bytes(s)) == upper_bytes(s),
{
    assert forall|b: u8| #[trigger] upper_byte(upper_byte(b)) == upper_byte(b) by {
        assert((b & 0xdf) & 0xdf == b & 0xdf) by (bit_vector);
    }
    assert(upper_bytes(upper_bytes(s)) =~= upper_bytes(s));
}

/// Reverse-complementing twice restores the record exactly: the sequence
/// bytes come back, and for FASTQ the quality bytes come back with them.
pub proof fn lemma_rev_comp_involutive(r: RecordView)
    requires
        r.wf(),
        r.valid(),
        r.qual matches Some(q) ==> q >= 1,
    ensures
        r.rev_comped().rev_comped() == r,
        r.rev_comped().rev_comped().seq_bytes() == r.seq_bytes(),
        r.is_fastq() ==> r.rev_comped().rev_comped().qual_bytes() == r.qual_bytes(),
{
    let r1 = r.rev_comped();
    assert(r1.seq_bytes() =~= rev_comp_bytes(r.seq_bytes()));
    if r.is_fastq() {
        assert(r1.qual_bytes() =~= rev_bytes(r.qual_bytes()));
    }
    let r2 = r1.rev_comped();
    assert(r2.seq_bytes() =~= rev_comp_bytes(r1.seq_bytes()));
    assert(rev_comp_bytes(rev_comp_bytes(r.seq_bytes())) =~= r.seq_bytes());
    if r.is_fastq() {
        assert(r2.qual_bytes() =~= rev_bytes(r1.qual_bytes()));
        assert(rev_bytes(rev_bytes(r.qual_bytes())) =~= r.qual_bytes());
    }
    assert(r2.data =~= r.data);
    assert(r2 =~= r);
}

/// A FASTA record built from parts renders back to exactly the marker,
/// the identifier line and the sequence line, and its accessors return
/// the parts unchanged.
pub proof fn lemma_fasta_parts_round_trip(r: RecordView, id: Seq<u8>, s: Seq<u8>)
    requires
        r == (RecordView {
            data: fasta_parts_data(id, s),
            id: (id.len() + 1) as nat,
            seq: (s.len() + 1) as nat,
            plus: None,
            qual: None,
        }),
    ensures
        r.data == seq!['>' as u8] + id + seq!['\n' as u8] + s + seq!['\n' as u8],
        r.id_bytes() == id,
        r.seq_bytes() == s,
        r.wf(),
        !r.empty(),
{
    assert(r.id_bytes() =~= id);
    assert(r.seq_bytes() =~= s);
}

/// A FASTQ record built from parts renders back to exactly the marker
/// and the four lines, and its accessors return the parts unchanged.
pub proof fn lemma_fastq_parts_round_trip(r: RecordView, id: Seq<u8>, s: Seq<u8>, q: Seq<u8>)
    requires
        r == (RecordView {
            data: fastq_parts_data(id, s, q),
            id: (id.len() + 1) as nat,
            seq: (s.len() + 1) as nat,
            plus: Some(2),
            qual: Some((q.len() + 1) as nat),
        }),
    ensures
        r.data == seq!['@' as u8] + id + seq!['\n' as u8] + s + seq!['\n' as u8, '+' as u8]
            + seq!['\n' as u8] + q + seq!['\n' as u8],
        r.id_bytes() == id,
        r.seq_bytes() == s,
        r.plus_bytes() == seq!['+' as u8],
        r.qual_bytes() == q,
        r.wf(),
        !r.empty(),
{
    assert(r.data =~= seq!['@' as u8] + id + seq!['\n' as u8] + s + seq![
        '\n' as u8,
        '+' as u8,
    ] + seq!['\n' as u8] + q + seq!['\n' as u8]);
    assert(r.id_bytes() =~= id);
    assert(r.seq_bytes() =~= s);
    assert(r.plus_bytes() =~= seq!['+' as u8]);
    assert(r.qual_bytes() =~= q);
}

/// Splicing bytes onto the front of the sequence and then trimming the
/// same number of bytes from the left restores the record exactly.
pub proof fn lemma_insert_left_then_trim_left(r: RecordView, b: Seq<u8>)
    requires
        r.wf(),
        r.seq >= 1,
    ensures
        r.inserted(b, 0).trimmed_left(b.len()) == r,
{
    let v1 = r.inserted(b, 0);
    let v2 = v1.trimmed_left(b.len());
    assert(v2.data =~= r.data);
    assert(v2 =~= r);
}

// ---------------------------------------------------------------------------
// Textual views of the buffer
// ---------------------------------------------------------------------------

#[verifier::external_type_specification]
#[verifier::external_body]
pub struct ExUtf8Error(core::str::Utf8Error);

/// Relies on std's `str::from_utf8`: it succeeds exactly on valid UTF-8
/// input and returns the input bytes unchanged as a string slice.
#[verifier::external_body]
fn bytes_to_str(b: &[u8]) -> (r: Result<&str, core::str::Utf8Error>)
    ensures
        r is Ok <==> vstd::utf8::valid_utf8(b@),
        r matches Ok(s) ==> s.spec_bytes() == b@,
{
    core::str::from_utf8(b)
}

impl Record {
    /// The whole buffer as text, when it is valid UTF-8.
    pub fn as_str_checked(&self) -> (r: Result<&str, core::str::Utf8Error>)
        ensures
            r is Ok <==> vstd::utf8::valid_utf8(self@.data),
            r matches Ok(s) ==> s.spec_bytes() == self@.data,
    {
        bytes_to_str(self.data.as_slice())
    }

    /// The identifier as text, when it is valid UTF-8.
    pub fn id_str_checked(&self) -> (r: Result<&str, core::str::Utf8Error>)
        requires
            self@.wf(),
            self@.id >= 1,
        ensures
            r is Ok <==> vstd::utf8::valid_utf8(self@.id_bytes()),
            r matches Ok(s) ==> s.spec_bytes() == self@.id_bytes(),
    {
        bytes_to_str(self.id())
    }

    /// The sequence as text, when it is valid UTF-8.
    pub fn seq_str_checked(&self) -> (r: Result<&str, core::str::Utf8Error>)
        requires
            self@.wf(),
            self@.seq >= 1,
        ensures
            r is Ok <==> vstd::utf8::valid_utf8(self@.seq_bytes()),
            r matches Ok(s) ==> s.spec_bytes() == self@.seq_bytes(),
    {
        bytes_to_str(self.seq())
    }

    /// The quality line as text, when present and valid UTF-8.
    pub fn qual_str_checked(&self) -> (r: Option<Result<&str, core::str::Utf8Error>>)
        requires
            self@.wf(),
            self@.qual matches Some(q) ==> q >= 1,
        ensures
            r is Some <==> self@.is_fastq(),
            r matches Some(inner) ==> (inner is Ok <==> vstd::utf8::valid_utf8(
                self@.qual_bytes(),
            )) && (inner matches Ok(s) ==> s.spec_bytes() == self@.qual_bytes()),
    {
        match self.qual() {
            Some(q) => Some(bytes_to_str(q)),
            None => None,
        }
    }

    /// The whole buffer as text; the buffer must be valid UTF-8.
    pub fn as_str(&self) -> (r: &str)
        requires
            vstd::utf8::valid_utf8(self@.data),
        ensures
            r.spec_bytes() == self@.data,
    {
        match self.as_str_checked() {
            Ok(s) => s,
            Err(_) => vstd::pervasive::unreached(),
        }
    }

    /// The identifier as text; it must be valid UTF-8.
    pub fn id_str(&self) -> (r: &str)
        requires
            self@.wf(),
            self@.id >= 1,
            vstd::utf8::valid_utf8(self@.id_bytes()),
        ensures
            r.spec_bytes() == self@.id_bytes(),
    {
        match self.id_str_checked() {
            Ok(s) => s,
            Err(_) => vstd::pervasive::unreached(),
        }
    }

    /// The sequence as text; it must be valid UTF-8.
    pub fn seq_str(&self) -> (r: &str)
        requires
            self@.wf(),
            self@.seq >= 1,
            vstd::utf8::valid_utf8(self@.seq_bytes()),
        ensures
            r.spec_bytes() == self@.seq_bytes(),
    {
        match self.seq_str_checked() {
            Ok(s) => s,
            Err(_) => vstd::pervasive::unreached(),
        }
    }

    /// Consumes the record and returns its whole text as an owned string;
    /// the buffer must be valid UTF-8.
    pub fn into_string(self) -> (r: String)
        requires
            vstd::utf8::valid_utf8(self@.data),
        ensures
            vstd::utf8::encode_utf8(r@) == self@.data,
    {
        self.as_str().to_owned()
    }

    /// The quality line as text, when present; it must be valid UTF-8.
    pub fn qual_str(&self) -> (r: Option<&str>)
        requires
            self@.wf(),
            self@.qual matches Some(q) ==> q >= 1,
            self@.is_fastq() ==> vstd::utf8::valid_utf8(self@.qual_bytes()),
        ensures
            r is Some <==> self@.is_fastq(),
            r matches Some(s) ==> s.spec_bytes() == self@.qual_bytes(),
    {
        match self.qual_str_checked() {
            Some(Ok(s)) => Some(s),
            Some(Err(_)) => vstd::pervasive::unreached(),
            None => None,
        }
    }
}

impl Default for Record {
    /// The default record is the blank record.
    fn default() -> (r: Self)
        ensures
            r@.blank(),
            r@.inv(),
    {
        Record::new()
    }
}

/// Appends `src[from..to]` to `out`.
fn copy_range(src: &Vec<u8>, from: usize, to: usize, out: &mut Vec<u8>)
    requires
        from <= to <= src@.len(),
    ensures
        final(out)@ == old(out)@ + src@.subrange(from as int, to as int),
{
    let mut i: usize = from;
    proof {
        assert(out@ =~= old(out)@ + src@.subrange(from as int, from as int));
    }
    while i < to
        invariant
            from <= i <= to,
            to <= src@.len(),
            out@ == old(out)@ + src@.subrange(from as int, i as int),
        decreases to - i,
    {
        let b: u8 = src[i];
        out.push(b);
        proof {
            assert(out@ =~= old(out)@ + src@.subrange(from as int, i + 1));
        }
        i += 1;
    }
}

/// Appends `count` copies of `b` to `out`.
fn fill_bytes(b: u8, count: usize, out: &mut Vec<u8>)
    ensures
        final(out)@ == old(out)@ + Seq::new(count as nat, |i: int| b),
{
    let mut i: usize = 0;
    proof {
        assert(out@ =~= old(out)@ + Seq::new(0, |j: int| b));
    }
    while i < count
        invariant
            0 <= i <= count,
            out@ == old(out)@ + Seq::new(i as nat, |j: int| b),
        decreases count - i,
    {
        out.push(b);
        proof {
            assert(out@ =~= old(out)@ + Seq::new((i + 1) as nat, |j: int| b));
        }
        i += 1;
    }
}

/// The Watson-Crick complement of one byte, case preserved.
fn complement(b: u8) -> (r: u8)
    ensures
        r == comp_byte(b),
{
    if b == 'A' as u8 {
        'T' as u8
    } else if b == 'T' as u8 {
        'A' as u8
    } else if b == 'C' as u8 {
        'G' as u8
    } else if b == 'G' as u8 {
        'C' as u8
    } else if b == 'a' as u8 {
        't' as u8
    } else if b == 't' as u8 {
        'a' as u8
    } else if b == 'c' as u8 {
        'g' as u8
    } else if b == 'g' as u8 {
        'c' as u8
    } else {
        b
    }
}

/// One byte of the ambiguity-code normalization done by `fix`.
fn fix_one(b: u8) -> (r: u8)
    ensures
        r == fix_byte(b),
{
    if b == 'A' as u8 || b == 'a' as u8 || b == 'C' as u8 || b == 'c' as u8 || b == 'G' as u8
        || b == 'g' as u8 || b == 'T' as u8 || b == 't' as u8 || b == 'N' as u8 || b == 'n' as u8 {
        b
    } else {
        'N' as u8
    }
}

} // verus!
