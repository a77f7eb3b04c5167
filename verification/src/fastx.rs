use vstd::prelude::*;

use crate::record::Record;
use crate::FxError;

verus! {

// ---------------------------------------------------------------------------
// What one marker-delimited read does, as a function of the stream
// ---------------------------------------------------------------------------

/// The smallest index at or after `pos` holding byte `b`, or the length
/// of `s` when no such index exists.
pub open spec fn find_at(s: Seq<u8>, pos: int, b: u8) -> int
    decreases s.len() - pos
        when 0 <= pos <= s.len()
{
    if pos >= s.len() {
        s.len() as int
    } else if s[pos] == b {
        pos
    } else {
        find_at(s, pos + 1, b)
    }
}

/// Where a read that stops at the first `b` at or after `pos` ends: one
/// past the delimiter when it occurs, the end of the stream otherwise.
pub open spec fn scan_end(s: Seq<u8>, pos: int, b: u8) -> int {
    if find_at(s, pos, b) < s.len() {
        find_at(s, pos, b) + 1
    } else {
        s.len() as int
    }
}

pub proof fn lemma_find_at_bounds(s: Seq<u8>, pos: int, b: u8)
    requires
        0 <= pos <= s.len(),
    ensures
        pos <= find_at(s, pos, b) <= s.len(),
        find_at(s, pos, b) < s.len() ==> s[find_at(s, pos, b)] == b,
        forall|j: int| pos <= j < find_at(s, pos, b) ==> s[j] != b,
    decreases s.len() - pos,
{
    if pos < s.len() && s[pos] != b {
        lemma_find_at_bounds(s, pos + 1, b);
    }
}

pub proof fn lemma_find_at_is(s: Seq<u8>, pos: int, b: u8, i: int)
    requires
        0 <= pos <= i < s.len(),
        s[i] == b,
        forall|j: int| pos <= j < i ==> s[j] != b,
    ensures
        find_at(s, pos, b) == i,
    decreases i - pos,
{
    if pos < i {
        lemma_find_at_is(s, pos + 1, b, i);
    }
}

pub proof fn lemma_find_at_none(s: Seq<u8>, pos: int, b: u8)
    requires
        0 <= pos <= s.len(),
        forall|j: int| pos <= j < s.len() ==> s[j] != b,
    ensures
        find_at(s, pos, b) == s.len(),
    decreases s.len() - pos,
{
    if pos < s.len() {
        lemma_find_at_none(s, pos + 1, b);
    }
}

/// The line lengths and the final position of `k` terminator-delimited
/// reads starting at `pos`, or `None` when one of them reads zero bytes
/// because the stream ended.
pub open spec fn read_lines(s: Seq<u8>, pos: int, k: nat) -> Option<(Seq<int>, int)>
    decreases k,
{
    if k == 0 {
        Some((Seq::empty(), pos))
    } else {
        let end = scan_end(s, pos, '\n' as u8);
        if end == pos {
            None
        } else {
            match read_lines(s, end, (k - 1) as nat) {
                None => None,
                Some((lens, fin)) => Some((seq![end - pos] + lens, fin)),
            }
        }
    }
}

/// The outcome of one pull on a scanner whose records start with marker
/// `m` and hold `k` terminator-delimited fields.
pub enum Step {
    /// The stream is exhausted, or it ends in the middle of a record;
    /// no record is produced either way.
    End,
    /// The read toward the next marker consumed more than one byte: the
    /// scanner was not sitting exactly on a marker.
    Misplaced { end: int },
    /// A whole record: its text is `[start, end)` of the stream and
    /// `lens` counts each of its `k` lines, terminators included.
    Rec { start: int, lens: Seq<int>, end: int },
}

/// What one pull does, as a function of the stream and the cursor.
pub open spec fn step_of(s: Seq<u8>, pos: int, m: u8, k: nat) -> Step {
    let e0 = scan_end(s, pos, m);
    if e0 == pos {
        Step::End
    } else if e0 > pos + 1 {
        Step::Misplaced { end: e0 }
    } else {
        match read_lines(s, e0, k) {
            None => Step::End,
            Some((lens, fin)) => Step::Rec { start: pos, lens, end: fin },
        }
    }
}

// ---------------------------------------------------------------------------
// The scanners' shared read primitive
// ---------------------------------------------------------------------------

/// Appends to `out` the bytes of `data` from `pos` up to and including
/// the first `delim`, or up to the end of `data` when `delim` does not
/// occur; returns how many bytes were appended and the new position.
pub(crate) fn read_until(data: &Vec<u8>, pos: usize, delim: u8, out: &mut Vec<u8>) -> (r: (
    usize,
    usize,
))
    requires
        pos <= data@.len(),
    ensures
        r.1 == scan_end(data@, pos as int, delim),
        r.0 == r.1 - pos,
        pos <= r.1 <= data@.len(),
        final(out)@ == old(out)@ + data@.subrange(pos as int, r.1 as int),
{
    let n: usize = data.len();
    let mut i: usize = pos;
    proof {
        assert(out@ =~= old(out)@ + data@.subrange(pos as int, pos as int));
    }
    while i < n
        invariant
            pos <= i <= n,
            n == data@.len(),
            out@ == old(out)@ + data@.subrange(pos as int, i as int),
            forall|j: int| pos <= j < i ==> data@[j] != delim,
        decreases n - i,
    {
        let b: u8 = data[i];
        out.push(b);
        proof {
            assert(out@ =~= old(out)@ + data@.subrange(pos as int, i + 1));
        }
        if b == delim {
            proof {
                lemma_find_at_is(data@, pos as int, delim, i as int);
            }
            return (i + 1 - pos, i + 1);
        }
        i += 1;
    }
    proof {
        lemma_find_at_none(data@, pos as int, delim);
    }
    (n - pos, n)
}

// ---------------------------------------------------------------------------
// The trait both scanners implement
// ---------------------------------------------------------------------------

/// A scanner that turns a byte stream into successive records: a lazy,
/// finite, non-restartable sequence. One pull consumes the stream up to
/// the end of the next record and yields it whole, or reports why not.
pub trait FastxRead {
    /// The whole byte stream this scanner walks.
    spec fn stream(&self) -> Seq<u8>;

    /// How much of the stream has been consumed.
    spec fn cursor(&self) -> int;

    /// The marker byte that opens each record.
    spec fn marker_byte(&self) -> u8;

    /// How many terminator-delimited fields one record holds.
    spec fn field_count(&self) -> nat;

    /// The cursor never leaves the stream.
    spec fn wf(&self) -> bool;

    /// Pulls the next record. `Ok(None)` means the stream is exhausted
    /// (possibly inside a truncated trailing record); an error means the
    /// scanner was not positioned on a marker. A returned record is
    /// whole, well-formed, and exactly the bytes the pull consumed.
    fn next_record(&mut self) -> (r: Result<Option<Record>, FxError>)
        requires
            old(self).wf(),
        ensures
            final(self).wf(),
            final(self).stream() == old(self).stream(),
            final(self).marker_byte() == old(self).marker_byte(),
            final(self).field_count() == old(self).field_count(),
            match step_of(
                old(self).stream(),
                old(self).cursor(),
                old(self).marker_byte(),
                old(self).field_count(),
            ) {
                Step::End => r matches Ok(None) && final(self).cursor()
                    == old(self).stream().len(),
                Step::Misplaced { end } => (r matches Err(e) && e == FxError::MalformedInput)
                    && final(self).cursor() == end,
                Step::Rec { start, lens, end } => r matches Ok(Some(rec)) && {
                    &&& final(self).cursor() == end
                    &&& rec@.wf()
                    &&& !rec@.empty()
                    &&& rec@.data == old(self).stream().subrange(start, end)
                    &&& rec@.id == lens[0]
                    &&& rec@.seq == lens[1]
                    &&& (old(self).field_count() == 2 ==> rec@.is_fasta())
                    &&& (old(self).field_count() == 4 ==> rec@.plus == Some(lens[2] as nat)
                        && rec@.qual == Some(lens[3] as nat))
                },
            },
    ;
}

} // verus!
