use vstd::prelude::*;

verus! {

/// The line terminator byte.
pub const NEWLINE: u8 = 10;

/// The carriage-return byte, dropped when it stands right before a terminator.
pub const CARRIAGE_RETURN: u8 = 13;

/// Progress of a line scan: the complete lines found so far (terminators
/// removed) and the bytes of the line not yet terminated.
pub type ScanState = (Seq<Seq<u8>>, Seq<u8>);

/// One byte of input: a terminator closes the open line, any other byte
/// extends it.
pub open spec fn scan_byte(st: ScanState, b: u8) -> ScanState {
    if b == NEWLINE {
        (st.0.push(st.1), Seq::empty())
    } else {
        (st.0, st.1.push(b))
    }
}

/// The scan state after reading all of `s`, starting from `st`.
pub open spec fn scan(st: ScanState, s: Seq<u8>) -> ScanState
    decreases s.len(),
{
    if s.len() == 0 {
        st
    } else {
        scan_byte(scan(st, s.drop_last()), s.last())
    }
}

/// Lines completed, and bytes left open, when `s` is read after the open
/// bytes `pending`.
pub open spec fn split_lines(pending: Seq<u8>, s: Seq<u8>) -> ScanState {
    scan((Seq::empty(), pending), s)
}

/// Reads of a stream in turn: the lines completed over all the reads, in
/// order, and the bytes left open after the last one.
pub open spec fn split_reads(reads: Seq<Seq<u8>>) -> ScanState
    decreases reads.len(),
{
    if reads.len() == 0 {
        (Seq::empty(), Seq::empty())
    } else {
        let before = split_reads(reads.drop_last());
        let now = split_lines(before.1, reads.last());
        (before.0 + now.0, now.1)
    }
}

/// All reads of a stream, one after the other.
pub open spec fn joined(reads: Seq<Seq<u8>>) -> Seq<u8>
    decreases reads.len(),
{
    if reads.len() == 0 {
        Seq::empty()
    } else {
        joined(reads.drop_last()) + reads.last()
    }
}

/// Text written line by line: each line followed by a terminator.
pub open spec fn framed(lines: Seq<Seq<u8>>) -> Seq<u8>
    decreases lines.len(),
{
    if lines.len() == 0 {
        Seq::empty()
    } else {
        framed(lines.drop_last()) + lines.last().push(NEWLINE)
    }
}

/// A line's bytes without a carriage return that ends it.
pub open spec fn strip_cr(line: Seq<u8>) -> Seq<u8> {
    if line.len() > 0 && line.last() == CARRIAGE_RETURN {
        line.drop_last()
    } else {
        line
    }
}

/// Reading `a` and then `b` leaves the scan where reading `a + b` does.
pub proof fn lemma_scan_concat(st: ScanState, a: Seq<u8>, b: Seq<u8>)
    ensures
        scan(st, a + b) == scan(scan(st, a), b),
    decreases b.len(),
{
    if b.len() == 0 {
        assert(a + b =~= a);
    } else {
        assert((a + b).drop_last() =~= a + b.drop_last());
        assert((a + b).last() == b.last());
        lemma_scan_concat(st, a, b.drop_last());
    }
}

/// Lines already found before a scan stay in front of those it finds.
pub proof fn lemma_scan_keeps_found(found: Seq<Seq<u8>>, open: Seq<u8>, s: Seq<u8>)
    ensures
        scan((found, open), s).0 == found + split_lines(open, s).0,
        scan((found, open), s).1 == split_lines(open, s).1,
    decreases s.len(),
{
    if s.len() == 0 {
        assert(found + Seq::<Seq<u8>>::empty() =~= found);
    } else {
        lemma_scan_keeps_found(found, open, s.drop_last());
        let inner = split_lines(open, s.drop_last());
        if s.last() == NEWLINE {
            assert(found + inner.0.push(inner.1) =~= (found + inner.0).push(inner.1));
        }
    }
}

/// However a stream is cut into reads, the reads together complete the same
/// lines, in the same order, and leave the same bytes open, as the whole
/// stream read at once.
pub proof fn lemma_reads_split_as_whole(reads: Seq<Seq<u8>>)
    ensures
        split_reads(reads) == split_lines(Seq::empty(), joined(reads)),
    decreases reads.len(),
{
    if reads.len() > 0 {
        let rest = reads.drop_last();
        lemma_reads_split_as_whole(rest);
        let start: ScanState = (Seq::empty(), Seq::empty());
        lemma_scan_concat(start, joined(rest), reads.last());
        let mid = scan(start, joined(rest));
        lemma_scan_keeps_found(mid.0, mid.1, reads.last());
    }
}

/// Lines written each with its terminator, and holding none inside, are
/// found again exactly, with nothing left open.
pub proof fn lemma_framed_lines_found(lines: Seq<Seq<u8>>)
    requires
        forall|i: int, j: int|
            0 <= i < lines.len() && 0 <= j < lines[i].len() ==> lines[i][j] != NEWLINE,
    ensures
        split_lines(Seq::empty(), framed(lines)) == (lines, Seq::<u8>::empty()),
    decreases lines.len(),
{
    if lines.len() > 0 {
        let rest = lines.drop_last();
        let line = lines.last();
        lemma_framed_lines_found(rest);
        let start: ScanState = (Seq::empty(), Seq::empty());
        lemma_scan_concat(start, framed(rest), line.push(NEWLINE));
        lemma_scan_keeps_found(rest, Seq::empty(), line.push(NEWLINE));
        assert(line.push(NEWLINE).drop_last() =~= line);
        lemma_open_line_grows(line);
        assert(Seq::<u8>::empty() + line =~= line);
        assert(rest + seq![line] =~= lines);
    }
}

/// Bytes without a terminator only extend the open line.
proof fn lemma_open_line_grows(s: Seq<u8>)
    requires
        forall|j: int| 0 <= j < s.len() ==> s[j] != NEWLINE,
    ensures
        split_lines(Seq::empty(), s) == (Seq::<Seq<u8>>::empty(), s),
    decreases s.len(),
{
    if s.len() > 0 {
        lemma_open_line_grows(s.drop_last());
        assert(s.drop_last().push(s.last()) =~= s);
    }
}

/// Text written line by line reaches the reader as exactly those lines, in
/// order, however the reads cut it; nothing is left over.
pub proof fn lemma_written_lines_delivered(lines: Seq<Seq<u8>>, reads: Seq<Seq<u8>>)
    requires
        forall|i: int, j: int|
            0 <= i < lines.len() && 0 <= j < lines[i].len() ==> lines[i][j] != NEWLINE,
        joined(reads) == framed(lines),
    ensures
        split_reads(reads) == (lines, Seq::<u8>::empty()),
{
    lemma_reads_split_as_whole(reads);
    lemma_framed_lines_found(lines);
}

} // verus!
