use vstd::prelude::*;
use vstd::utf8::{
    decode_utf8, encode_scalar, encode_utf8, encode_utf8_decode_utf8, encode_utf8_valid_utf8,
    has_width_1_encoding, last_continuation_byte, leading_byte_width_1, leading_byte_width_2,
    leading_byte_width_3, leading_byte_width_4, second_last_continuation_byte,
    third_last_continuation_byte, valid_utf8,
};

use crate::events::{cli_error_tag, cli_output_tag, UiEvent};
use crate::lines::{
    framed, joined, lemma_scan_concat, lemma_scan_keeps_found, lemma_written_lines_delivered,
    split_lines, split_reads, strip_cr, CARRIAGE_RETURN, NEWLINE,
};

verus! {

/// Which captured stream of the tool a forwarder reads.
#[derive(Clone, Copy, Debug, PartialEq, Eq, Structural)]
pub enum StreamKind {
    Stdout,
    Stderr,
}

impl StreamKind {
    /// Tag of the events that carry this stream's lines.
    pub open spec fn tag(self) -> Seq<char> {
        match self {
            StreamKind::Stdout => cli_output_tag(),
            StreamKind::Stderr => cli_error_tag(),
        }
    }

    pub fn event_name(&self) -> (r: String)
        ensures
            r@ == self.tag(),
    {
        match self {
            StreamKind::Stdout => String::from_str("cli-output"),
            StreamKind::Stderr => String::from_str("cli-error"),
        }
    }
}

/// What one read of a captured stream produced.
#[derive(Debug)]
pub enum ReadEvent {
    /// Bytes, in the order the tool wrote them.
    Data(Vec<u8>),
    /// The stream reached its end.
    EndOfStream,
    /// The read failed; the stream is treated as ended.
    Failed,
}

/// A complete line becomes an event when its bytes, without a carriage
/// return before the terminator, are valid UTF-8.
pub open spec fn decodable(line: Seq<u8>) -> bool {
    valid_utf8(strip_cr(line))
}

/// The text a decodable line carries.
pub open spec fn line_text(line: Seq<u8>) -> Seq<char> {
    decode_utf8(strip_cr(line))
}

/// `e` is the event that forwards `line` of the stream `kind`.
pub open spec fn forwards_line(kind: StreamKind, line: Seq<u8>, e: UiEvent) -> bool {
    &&& decodable(line)
    &&& e.name@ == kind.tag()
    &&& e.payload@ == line_text(line)
}

/// Relies on String::from_utf8: it succeeds exactly on valid UTF-8, and the
/// string then holds the characters those bytes encode.
#[verifier::external_body]
fn utf8_to_string(bytes: Vec<u8>) -> (r: Option<String>)
    ensures
        r is Some <==> valid_utf8(bytes@),
        r matches Some(s) ==> s@ == decode_utf8(bytes@),
{
    String::from_utf8(bytes).ok()
}

/// The text of one complete line, or `None` where it is not valid UTF-8.
pub fn decode_line(line: Vec<u8>) -> (r: Option<String>)
    ensures
        r is Some <==> decodable(line@),
        r matches Some(s) ==> s@ == line_text(line@),
{
    let mut bytes = line;
    let n = bytes.len();
    if n > 0 && bytes[n - 1] == CARRIAGE_RETURN {
        bytes.pop();
        proof {
            assert(bytes@ =~= strip_cr(line@));
        }
    }
    utf8_to_string(bytes)
}

/// Turns the reads of one captured stream into line events.
///
/// Each complete line becomes one event, in the order written. Bytes after
/// the last terminator wait for the next read and are dropped if the stream
/// ends first. A line that is not valid UTF-8 ends the forwarding.
pub struct StreamForwarder {
    pub kind: StreamKind,
    /// Bytes of the line not yet terminated.
    pub pending: Vec<u8>,
    /// No further events will be produced.
    pub stopped: bool,
}

/// The events `out` are those owed for a read that completed `found` and
/// left the forwarder in state `after`.
pub open spec fn forwards_read(
    kind: StreamKind,
    found: (Seq<Seq<u8>>, Seq<u8>),
    out: Seq<UiEvent>,
    after: StreamForwarder,
) -> bool {
    let lines = found.0;
    &&& out.len() <= lines.len()
    &&& forall|k: int| 0 <= k < out.len() ==> forwards_line(kind, #[trigger] lines[k], out[k])
    &&& after.stopped <==> out.len() < lines.len()
    &&& out.len() < lines.len() ==> !decodable(lines[out.len() as int])
    &&& after.stopped ==> after.pending@.len() == 0
    &&& !after.stopped ==> after.pending@ == found.1
}

impl StreamForwarder {
    pub fn new(kind: StreamKind) -> (r: StreamForwarder)
        ensures
            r.kind == kind,
            r.pending@.len() == 0,
            !r.stopped,
    {
        StreamForwarder { kind, pending: Vec::new(), stopped: false }
    }

    /// Handles one read of the stream and returns the events to emit, in
    /// order.
    pub fn on_read(&mut self, read: ReadEvent) -> (out: Vec<UiEvent>)
        ensures
            final(self).kind == old(self).kind,
            old(self).stopped ==> out@.len() == 0 && *final(self) == *old(self),
            !old(self).stopped ==> match read {
                ReadEvent::Data(chunk) => forwards_read(
                    old(self).kind,
                    split_lines(old(self).pending@, chunk@),
                    out@,
                    *final(self),
                ),
                _ => out@.len() == 0 && final(self).stopped && final(self).pending@.len() == 0,
            },
    {
        let mut out: Vec<UiEvent> = Vec::new();
        if self.stopped {
            return out;
        }
        match read {
            ReadEvent::Data(chunk) => {
                let ghost start = self.pending@;
                let mut open: Vec<u8> = Vec::new();
                std::mem::swap(&mut open, &mut self.pending);
                let ghost mut found: Seq<Seq<u8>> = Seq::empty();
                let mut failed = false;
                let mut i: usize = 0;
                proof {
                    assert(chunk@.take(0) =~= Seq::<u8>::empty());
                }
                while i < chunk.len() && !failed
                    invariant
                        0 <= i <= chunk@.len(),
                        split_lines(start, chunk@.take(i as int)) == (found, open@),
                        self.kind == old(self).kind,
                        !self.stopped,
                        self.pending@.len() == 0,
                        failed ==> out@.len() + 1 == found.len() && !decodable(found.last()),
                        !failed ==> out@.len() == found.len(),
                        forall|k: int|
                            0 <= k < out@.len() ==> forwards_line(
                                self.kind,
                                #[trigger] found[k],
                                out@[k],
                            ),
                    decreases chunk@.len() - i,
                {
                    let b = chunk[i];
                    proof {
                        assert(chunk@.take(i + 1).drop_last() =~= chunk@.take(i as int));
                    }
                    if b == NEWLINE {
                        let mut line: Vec<u8> = Vec::new();
                        std::mem::swap(&mut line, &mut open);
                        proof {
                            found = found.push(line@);
                        }
                        match decode_line(line) {
                            Some(text) => {
                                out.push(UiEvent { name: self.kind.event_name(), payload: text });
                            },
                            None => {
                                failed = true;
                            },
                        }
                    } else {
                        open.push(b);
                    }
                    i += 1;
                }
                proof {
                    let head = chunk@.take(i as int);
                    let tail = chunk@.skip(i as int);
                    assert(head + tail =~= chunk@);
                    lemma_scan_concat((Seq::empty(), start), head, tail);
                    lemma_scan_keeps_found(found, open@, tail);
                }
                if failed {
                    self.stopped = true;
                } else {
                    proof {
                        assert(chunk@.take(i as int) =~= chunk@);
                        assert(chunk@.skip(i as int) =~= Seq::<u8>::empty());
                    }
                    self.pending = open;
                }
            },
            _ => {
                self.stopped = true;
                self.pending = Vec::new();
            },
        }
        out
    }
}

/// Bytes of a character's UTF-8 encoding: only a line feed encodes to the
/// terminator byte, and only a carriage return ends in that byte.
proof fn lemma_scalar_bytes(c: char)
    ensures
        c != '\n' ==> forall|j: int|
            0 <= j < encode_scalar(c as u32).len() ==> #[trigger] encode_scalar(c as u32)[j] != NEWLINE,
        c != '\r' ==> encode_scalar(c as u32).last() != CARRIAGE_RETURN,
        encode_scalar(c as u32).len() > 0,
{
    let s = c as u32;
    if has_width_1_encoding(s) {
        assert(s <= 0x7f ==> leading_byte_width_1(s) as u32 == s) by (bit_vector);
        assert(s != 10 ==> '\n' as u32 != s);
    } else {
        assert(leading_byte_width_2(s) >= 0x80) by (bit_vector);
        assert(leading_byte_width_3(s) >= 0x80) by (bit_vector);
        assert(leading_byte_width_4(s) >= 0x80) by (bit_vector);
        assert(last_continuation_byte(s) >= 0x80) by (bit_vector);
        assert(second_last_continuation_byte(s) >= 0x80) by (bit_vector);
        assert(third_last_continuation_byte(s) >= 0x80) by (bit_vector);
    }
}

proof fn lemma_encode_push(t: Seq<char>, c: char)
    ensures
        encode_utf8(t.push(c)) == encode_utf8(t) + encode_scalar(c as u32),
    decreases t.len(),
{
    if t.len() == 0 {
        assert(t.push(c).drop_first() =~= Seq::<char>::empty());
        assert(t.push(c)[0] == c);
        assert(encode_utf8(Seq::<char>::empty()) =~= Seq::<u8>::empty());
        assert(t =~= Seq::<char>::empty());
        assert(encode_utf8(t.push(c)) =~= encode_utf8(t) + encode_scalar(c as u32));
    } else {
        assert(t.push(c).drop_first() =~= t.drop_first().push(c));
        lemma_encode_push(t.drop_first(), c);
        assert(encode_utf8(t.push(c)) =~= encode_utf8(t) + encode_scalar(c as u32));
    }
}

/// The encoding of text without a line feed holds no terminator byte, and
/// ends in a carriage return only where the text does.
proof fn lemma_encoded_line(t: Seq<char>)
    requires
        forall|j: int| 0 <= j < t.len() ==> t[j] != '\n',
    ensures
        forall|j: int| 0 <= j < encode_utf8(t).len() ==> #[trigger] encode_utf8(t)[j] != NEWLINE,
        t.len() > 0 && t.last() != '\r' ==> encode_utf8(t).last() != CARRIAGE_RETURN,
        t.len() == 0 ==> encode_utf8(t).len() == 0,
    decreases t.len(),
{
    if t.len() > 0 {
        let rest = t.drop_last();
        let c = t.last();
        lemma_encoded_line(rest);
        lemma_encode_push(rest, c);
        assert(rest.push(c) =~= t);
        lemma_scalar_bytes(c);
        let a = encode_utf8(rest);
        let b = encode_scalar(c as u32);
        assert forall|j: int| 0 <= j < (a + b).len() implies (a + b)[j] != NEWLINE by {
            if j >= a.len() {
                assert((a + b)[j] == b[j - a.len()]);
            }
        }
    }
}

/// The UTF-8 encoding of each line of text.
pub open spec fn encoded_lines(texts: Seq<Seq<char>>) -> Seq<Seq<u8>> {
    texts.map_values(|t: Seq<char>| encode_utf8(t))
}

/// Lines of text written each with its terminator, however the reads cut
/// them, come out as exactly those lines in order, each decodable to its
/// own text, with nothing left over. A line must not hold a line feed, nor
/// end in a carriage return, which the reader takes as part of the
/// terminator.
pub proof fn lemma_written_text_delivered(texts: Seq<Seq<char>>, reads: Seq<Seq<u8>>)
    requires
        forall|i: int, j: int| 0 <= i < texts.len() && 0 <= j < texts[i].len() ==> texts[i][j] != '\n',
        forall|i: int| 0 <= i < texts.len() && texts[i].len() > 0 ==> texts[i].last() != '\r',
        joined(reads) == framed(encoded_lines(texts)),
    ensures
        split_reads(reads).0 == encoded_lines(texts),
        split_reads(reads).1.len() == 0,
        forall|i: int|
            0 <= i < texts.len() ==> decodable(#[trigger] split_reads(reads).0[i])
                && line_text(split_reads(reads).0[i]) == texts[i],
{
    let lines = encoded_lines(texts);
    assert forall|i: int, j: int| 0 <= i < lines.len() && 0 <= j < lines[i].len() implies lines[i][j] != NEWLINE by {
        lemma_encoded_line(texts[i]);
    }
    lemma_written_lines_delivered(lines, reads);
    assert forall|i: int| 0 <= i < texts.len() implies decodable(#[trigger] split_reads(reads).0[i])
        && line_text(split_reads(reads).0[i]) == texts[i] by {
        lemma_encoded_line(texts[i]);
        assert(strip_cr(lines[i]) == lines[i]);
        encode_utf8_valid_utf8(texts[i]);
        encode_utf8_decode_utf8(texts[i]);
    }
}

} // verus!
