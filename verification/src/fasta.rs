use vstd::prelude::*;

use crate::fastx::{lemma_find_at_bounds, read_lines, read_until, step_of, FastxRead, Step};
use crate::record::Record;
use crate::FxError;

verus! {

/// The byte-level scanner for FASTA streams: walks one in-memory stream
/// and cuts it into marker-delimited records of two lines each.
#[derive(Debug)]
pub struct FastaBytes {
    data: Vec<u8>,
    pos: usize,
}

impl FastaBytes {
    pub closed spec fn stream(&self) -> Seq<u8> {
        self.data@
    }

    pub closed spec fn cursor(&self) -> int {
        self.pos as int
    }

    pub open spec fn wf(&self) -> bool {
        0 <= self.cursor() <= self.stream().len()
    }

    /// Scans the next record: seeks the marker, then reads the identifier
    /// and sequence lines. `None` means the stream ended, cleanly or
    /// inside a truncated record.
    pub fn next(&mut self) -> (r: Option<Result<Record, FxError>>)
        requires
            old(self).wf(),
        ensures
            final(self).wf(),
            final(self).stream() == old(self).stream(),
            match step_of(old(self).stream(), old(self).cursor(), '>' as u8, 2) {
                Step::End => r is None && final(self).cursor() == old(self).stream().len(),
                Step::Misplaced { end } => (r matches Some(res) && res matches Err(e)
                    && e == FxError::MalformedInput) && final(self).cursor() == end,
                Step::Rec { start, lens, end } => r matches Some(res) && res matches Ok(rec) && {
                    &&& final(self).cursor() == end
                    &&& rec@.wf()
                    &&& !rec@.empty()
                    &&& rec@.data == old(self).stream().subrange(start, end)
                    &&& rec@.id == lens[0]
                    &&& rec@.seq == lens[1]
                    &&& rec@.is_fasta()
                },
            },
    {
        let ghost s = self.data@;
        let ghost p0 = self.pos as int;
        let mut bytes: Vec<u8> = Vec::new();
        let marker = read_until(&self.data, self.pos, '>' as u8, &mut bytes);
        self.pos = marker.1;
        proof {
            lemma_find_at_bounds(s, p0, '>' as u8);
        }
        if marker.0 == 0 {
            return None;
        }
        if marker.0 > 1 {
            return Some(Err(FxError::MalformedInput));
        }
        let ghost p1 = self.pos as int;
        let id = read_until(&self.data, self.pos, '\n' as u8, &mut bytes);
        self.pos = id.1;
        proof {
            lemma_find_at_bounds(s, p1, '\n' as u8);
        }
        if id.0 == 0 {
            return None;
        }
        let ghost p2 = self.pos as int;
        let seq = read_until(&self.data, self.pos, '\n' as u8, &mut bytes);
        self.pos = seq.1;
        proof {
            lemma_find_at_bounds(s, p2, '\n' as u8);
        }
        if seq.0 == 0 {
            proof {
                assert(read_lines(s, p1, 2) is None);
            }
            return None;
        }
        let ghost p3 = self.pos as int;
        let record = Record::new_fasta(bytes, id.0, seq.0);
        proof {
            assert(read_lines(s, p3, 0) == Some((Seq::<int>::empty(), p3)));
            assert(read_lines(s, p2, 1) matches Some((lens, fin)) && lens =~= seq![p3 - p2]
                && fin == p3);
            assert(read_lines(s, p1, 2) matches Some((lens, fin)) && lens =~= seq![
                p2 - p1,
                p3 - p2,
            ] && fin == p3);
            assert(record@.data =~= s.subrange(p0, p3));
        }
        Some(Ok(record))
    }
}

/// Scanning the rendered text of a FASTA record built from parts whose
/// lines hold no terminator yields exactly that record's two lines and
/// consumes the whole stream.
pub proof fn lemma_fasta_render_then_scan(id: Seq<u8>, s: Seq<u8>)
    requires
        forall|j: int| 0 <= j < id.len() ==> id[j] != '\n' as u8,
        forall|j: int| 0 <= j < s.len() ==> s[j] != '\n' as u8,
    ensures
        step_of(crate::record::fasta_parts_data(id, s), 0, '>' as u8, 2) == (Step::Rec {
            start: 0,
            lens: seq![id.len() + 1int, s.len() + 1int],
            end: crate::record::fasta_parts_data(id, s).len() as int,
        }),
{
    let d = crate::record::fasta_parts_data(id, s);
    let e1: int = id.len() + 2int;
    let e2: int = id.len() + s.len() + 3int;
    assert(d.len() == e2);
    assert(d[0] == '>' as u8);
    crate::fastx::lemma_find_at_is(d, 0, '>' as u8, 0);
    assert forall|j: int| 1 <= j < 1 + id.len() implies d[j] != '\n' as u8 by {
        assert(d[j] == id[j - 1]);
    }
    assert(d[id.len() + 1int] == '\n' as u8);
    crate::fastx::lemma_find_at_is(d, 1, '\n' as u8, id.len() + 1int);
    assert forall|j: int| e1 <= j < e1 + s.len() implies d[j] != '\n' as u8 by {
        assert(d[j] == s[j - e1]);
    }
    assert(d[e1 + s.len()] == '\n' as u8);
    crate::fastx::lemma_find_at_is(d, e1, '\n' as u8, e1 + s.len());
    assert(read_lines(d, e2, 0) == Some((Seq::<int>::empty(), e2)));
    assert(read_lines(d, e1, 1) matches Some((lens, fin)) && lens =~= seq![s.len() + 1int]
        && fin == e2);
    assert(read_lines(d, 1, 2) matches Some((lens, fin)) && lens =~= seq![
        id.len() + 1int,
        s.len() + 1int,
    ] && fin == e2);
}

/// A FASTA reader over one in-memory byte stream.
#[derive(Debug)]
pub struct FastaReader {
    reader: FastaBytes,
}

impl FastaReader {
    /// Creates a reader positioned at the first byte of `data`.
    pub fn new(data: Vec<u8>) -> (r: Self)
        ensures
            r.stream() == data@,
            r.cursor() == 0,
            r.wf(),
    {
        Self { reader: FastaBytes { data, pos: 0 } }
    }

    /// One pull of the underlying byte scanner, with its outcome turned
    /// into a fallible "maybe a record".
    fn next_buffer(&mut self) -> (r: Result<Option<Record>, FxError>)
        requires
            old(self).wf(),
        ensures
            final(self).wf(),
            final(self).stream() == old(self).stream(),
            match step_of(old(self).stream(), old(self).cursor(), '>' as u8, 2) {
                Step::End => r matches Ok(None) && final(self).cursor()
                    == old(self).stream().len(),
                Step::Misplaced { end } => (r matches Err(e) && e == FxError::MalformedInput)
                    && final(self).cursor() == end,
                Step::Rec { start, lens, end } => r matches Ok(Some(rec)) && {
                    &&& final(self).cursor() == end
                    &&& rec@.wf()
                    &&& !rec@.empty()
                    &&& rec@.data == old(self).stream().subrange(start, end)
                    &&& rec@.id == lens[0]
                    &&& rec@.seq == lens[1]
                    &&& rec@.is_fasta()
                },
            },
    {
        match self.reader.next() {
            Some(Ok(record)) => Ok(Some(record)),
            Some(Err(e)) => Err(e),
            None => Ok(None),
        }
    }
}

impl FastxRead for FastaReader {
    closed spec fn stream(&self) -> Seq<u8> {
        self.reader.stream()
    }

    closed spec fn cursor(&self) -> int {
        self.reader.cursor()
    }

    open spec fn marker_byte(&self) -> u8 {
        '>' as u8
    }

    open spec fn field_count(&self) -> nat {
        2
    }

    closed spec fn wf(&self) -> bool {
        self.reader.wf()
    }

    fn next_record(&mut self) -> (r: Result<Option<Record>, FxError>) {
        self.next_buffer()
    }
}

} // verus!
