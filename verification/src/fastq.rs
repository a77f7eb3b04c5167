use vstd::prelude::*;

use crate::fastx::{lemma_find_at_bounds, read_lines, read_until, step_of, FastxRead, Step};
use crate::record::Record;
use crate::FxError;

verus! {

/// The byte-level scanner for FASTQ streams: walks one in-memory stream
/// and cuts it into marker-delimited records of four lines each.
#[derive(Debug)]
pub struct FastqBytes {
    data: Vec<u8>,
    pos: usize,
}

impl FastqBytes {
    pub closed spec fn stream(&self) -> Seq<u8> {
        self.data@
    }

    pub closed spec fn cursor(&self) -> int {
        self.pos as int
    }

    pub open spec fn wf(&self) -> bool {
        0 <= self.cursor() <= self.stream().len()
    }

    /// Scans the next record: seeks the marker, then reads the
    /// identifier, sequence, separator and quality lines. `None` means
    /// the stream ended, cleanly or inside a truncated record.
    pub fn next(&mut self) -> (r: Option<Result<Record, FxError>>)
        requires
            old(self).wf(),
        ensures
            final(self).wf(),
            final(self).stream() == old(self).stream(),
            match step_of(old(self).stream(), old(self).cursor(), '@' as u8, 4) {
                Step::End => r is None && final(self).cursor() == old(self).stream().len(),
                Step::Misplaced { end } => (r matches Some(res) && res matches Err(e)
                    && e == FxError::MalformedInput) && final(self).cursor() == end,
                Step::Rec { start, lens, end } => r matches Some(res) && res matches Ok(rec) && {
                    &&& final(self).cursor() == end
                    &&& rec@.wf()
                    &&& !rec@.empty()
                    &&& rec@.data == old(self).stream().subrange(start, end)
                    &&& rec@.id == lens[0]
                    &&& rec@.seq == lens[1]
                    &&& rec@.plus == Some(lens[2] as nat)
                    &&& rec@.qual == Some(lens[3] as nat)
                },
            },
    {
        let ghost s = self.data@;
        let ghost p0 = self.pos as int;
        let mut bytes: Vec<u8> = Vec::new();
        let marker = read_until(&self.data, self.pos, '@' as u8, &mut bytes);
        self.pos = marker.1;
        proof {
            lemma_find_at_bounds(s, p0, '@' as u8);
        }
        if marker.0 == 0 {
            return None;
        }
        if marker.0 > 1 {
            return Some(Err(FxError::MalformedInput));
        }
        let ghost p1 = self.pos as int;
        let id = read_until(&self.data, self.pos, '\n' as u8, &mut bytes);
        self.pos = id.1;
        proof {
            lemma_find_at_bounds(s, p1, '\n' as u8);
        }
        if id.0 == 0 {
            return None;
        }
        let ghost p2 = self.pos as int;
        let seq = read_until(&self.data, self.pos, '\n' as u8, &mut bytes);
        self.pos = seq.1;
        proof {
            lemma_find_at_bounds(s, p2, '\n' as u8);
        }
        if seq.0 == 0 {
            proof {
                assert(read_lines(s, p1, 4) is None);
            }
            return None;
        }
        let ghost p3 = self.pos as int;
        let plus = read_until(&self.data, self.pos, '\n' as u8, &mut bytes);
        self.pos = plus.1;
        proof {
            lemma_find_at_bounds(s, p3, '\n' as u8);
        }
        if plus.0 == 0 {
            proof {
                assert(read_lines(s, p2, 3) is None);
                assert(read_lines(s, p1, 4) is None);
            }
            return None;
        }
        let ghost p4 = self.pos as int;
        let qual = read_until(&self.data, self.pos, '\n' as u8, &mut bytes);
        self.pos = qual.1;
        proof {
            lemma_find_at_bounds(s, p4, '\n' as u8);
        }
        if qual.0 == 0 {
            proof {
                assert(read_lines(s, p3, 2) is None);
                assert(read_lines(s, p2, 3) is None);
                assert(read_lines(s, p1, 4) is None);
            }
            return None;
        }
        let ghost p5 = self.pos as int;
        let record = Record::new_fastq(bytes, id.0, seq.0, plus.0, qual.0);
        proof {
            assert(read_lines(s, p5, 0) == Some((Seq::<int>::empty(), p5)));
            assert(read_lines(s, p4, 1) matches Some((lens, fin)) && lens =~= seq![p5 - p4]
                && fin == p5);
            assert(read_lines(s, p3, 2) matches Some((lens, fin)) && lens =~= seq![
                p4 - p3,
                p5 - p4,
            ] && fin == p5);
            assert(read_lines(s, p2, 3) matches Some((lens, fin)) && lens =~= seq![
                p3 - p2,
                p4 - p3,
                p5 - p4,
            ] && fin == p5);
            assert(read_lines(s, p1, 4) matches Some((lens, fin)) && lens =~= seq![
                p2 - p1,
                p3 - p2,
                p4 - p3,
                p5 - p4,
            ] && fin == p5);
            assert(record@.data =~= s.subrange(p0, p5));
        }
        Some(Ok(record))
    }
}

/// Scanning the rendered text of a FASTQ record built from parts whose
/// lines hold no terminator yields exactly that record's four lines and
/// consumes the whole stream.
pub proof fn lemma_fastq_render_then_scan(id: Seq<u8>, s: Seq<u8>, q: Seq<u8>)
    requires
        forall|j: int| 0 <= j < id.len() ==> id[j] != '\n' as u8,
        forall|j: int| 0 <= j < s.len() ==> s[j] != '\n' as u8,
        forall|j: int| 0 <= j < q.len() ==> q[j] != '\n' as u8,
    ensures
        step_of(crate::record::fastq_parts_data(id, s, q), 0, '@' as u8, 4) == (Step::Rec {
            start: 0,
            lens: seq![id.len() + 1int, s.len() + 1int, 2int, q.len() + 1int],
            end: crate::record::fastq_parts_data(id, s, q).len() as int,
        }),
{
    let d = crate::record::fastq_parts_data(id, s, q);
    let e1: int = id.len() + 2int;
    let e2: int = id.len() + s.len() + 3int;
    let e3: int = e2 + 2int;
    let e4: int = e3 + q.len() + 1int;
    assert(d.len() == e4);
    assert(d[0] == '@' as u8);
    crate::fastx::lemma_find_at_is(d, 0, '@' as u8, 0);
    assert forall|j: int| 1 <= j < 1 + id.len() implies d[j] != '\n' as u8 by {
        assert(d[j] == id[j - 1]);
    }
    assert(d[id.len() + 1int] == '\n' as u8);
    crate::fastx::lemma_find_at_is(d, 1, '\n' as u8, id.len() + 1int);
    assert forall|j: int| e1 <= j < e1 + s.len() implies d[j] != '\n' as u8 by {
        assert(d[j] == s[j - e1]);
    }
    assert(d[e1 + s.len()] == '\n' as u8);
    crate::fastx::lemma_find_at_is(d, e1, '\n' as u8, e1 + s.len());
    assert(d[e2] == '+' as u8);
    assert(d[e2 + 1int] == '\n' as u8);
    crate::fastx::lemma_find_at_is(d, e2, '\n' as u8, e2 + 1int);
    assert forall|j: int| e3 <= j < e3 + q.len() implies d[j] != '\n' as u8 by {
        assert(d[j] == q[j - e3]);
    }
    assert(d[e3 + q.len()] == '\n' as u8);
    crate::fastx::lemma_find_at_is(d, e3, '\n' as u8, e3 + q.len());
    assert(read_lines(d, e4, 0) == Some((Seq::<int>::empty(), e4)));
    assert(read_lines(d, e3, 1) matches Some((lens, fin)) && lens =~= seq![q.len() + 1int]
        && fin == e4);
    assert(read_lines(d, e2, 2) matches Some((lens, fin)) && lens =~= seq![
        2int,
        q.len() + 1int,
    ] && fin == e4);
    assert(read_lines(d, e1, 3) matches Some((lens, fin)) && lens =~= seq![
        s.len() + 1int,
        2int,
        q.len() + 1int,
    ] && fin == e4);
    assert(read_lines(d, 1, 4) matches Some((lens, fin)) && lens =~= seq![
        id.len() + 1int,
        s.len() + 1int,
        2int,
        q.len() + 1int,
    ] && fin == e4);
}

/// A FASTQ reader over one in-memory byte stream.
#[derive(Debug)]
pub struct FastqReader {
    reader: FastqBytes,
}

impl FastqReader {
    /// Creates a reader positioned at the first byte of `data`.
    pub fn new(data: Vec<u8>) -> (r: Self)
        ensures
            r.stream() == data@,
            r.cursor() == 0,
            r.wf(),
    {
        Self { reader: FastqBytes { data, pos: 0 } }
    }

    /// One pull of the underlying byte scanner, with its outcome turned
    /// into a fallible "maybe a record".
    fn next_buffer(&mut self) -> (r: Result<Option<Record>, FxError>)
        requires
            old(self).wf(),
        ensures
            final(self).wf(),
            final(self).stream() == old(self).stream(),
            match step_of(old(self).stream(), old(self).cursor(), '@' as u8, 4) {
                Step::End => r matches Ok(None) && final(self).cursor()
                    == old(self).stream().len(),
                Step::Misplaced { end } => (r matches Err(e) && e == FxError::MalformedInput)
                    && final(self).cursor() == end,
                Step::Rec { start, lens, end } => r matches Ok(Some(rec)) && {
                    &&& final(self).cursor() == end
                    &&& rec@.wf()
                    &&& !rec@.empty()
                    &&& rec@.data == old(self).stream().subrange(start, end)
                    &&& rec@.id == lens[0]
                    &&& rec@.seq == lens[1]
                    &&& rec@.plus == Some(lens[2] as nat)
                    &&& rec@.qual == Some(lens[3] as nat)
                },
            },
    {
        match self.reader.next() {
            Some(Ok(record)) => Ok(Some(record)),
            Some(Err(e)) => Err(e),
            None => Ok(None),
        }
    }
}

impl FastxRead for FastqReader {
    closed spec fn stream(&self) -> Seq<u8> {
        self.reader.stream()
    }

    closed spec fn cursor(&self) -> int {
        self.reader.cursor()
    }

    open spec fn marker_byte(&self) -> u8 {
        '@' as u8
    }

    open spec fn field_count(&self) -> nat {
        4
    }

    closed spec fn wf(&self) -> bool {
        self.reader.wf()
    }

    fn next_record(&mut self) -> (r: Result<Option<Record>, FxError>) {
        self.next_buffer()
    }
}

} // verus!
