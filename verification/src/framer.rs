//! The framing of a connection's bytes into lines, and of a line into bytes.

use tokio_util::bytes::BytesMut;
use tokio_util::codec::{Decoder, Encoder, LinesCodec, LinesCodecError};
use vstd::prelude::*;
use vstd::string::*;
use vstd::utf8::{decode_utf8, valid_utf8};

verus! {

/// Why a connection gave no further line.
#[derive(Clone, Copy, PartialEq, Eq, Structural, Debug)]
pub enum FrameError {
    /// A line is longer than the limit.
    LineTooLong,
    /// A line is not UTF-8.
    InvalidUtf8,
    /// Reading from the transport failed.
    Io,
}

/// The longest line, without its terminator, that a connection may send.
pub const MAX_LINE_LENGTH: usize = 2048;

/// The byte that ends a line.
pub const LINE_FEED: u8 = 0x0a;

/// The byte that may stand before the line feed.
pub const CARRIAGE_RETURN: u8 = 0x0d;

/// The index of the first line feed in `bytes`, or the length of `bytes`
/// when it holds none.
pub open spec fn first_newline(bytes: Seq<u8>) -> int
    decreases bytes.len(),
{
    if bytes.len() == 0 {
        0
    } else if bytes[0] == LINE_FEED {
        0
    } else {
        1 + first_newline(bytes.drop_first())
    }
}

/// `body` without one carriage return at its end.
pub open spec fn strip_cr(body: Seq<u8>) -> Seq<u8> {
    if body.len() > 0 && body.last() == CARRIAGE_RETURN {
        body.drop_last()
    } else {
        body
    }
}

/// The line that `body` encodes, or the error when it is not UTF-8.
pub open spec fn line_of(body: Seq<u8>) -> Result<Option<Seq<char>>, FrameError> {
    if valid_utf8(body) {
        Ok(Some(decode_utf8(body)))
    } else {
        Err(FrameError::InvalidUtf8)
    }
}

/// One step of framing on the bytes received so far: what it yields, and how
/// many bytes it uses up. A line feed among the first `max_len + 1` bytes
/// ends a line, which is used up with its terminator. Without one, more than
/// `max_len` bytes are an error, and fewer wait for more.
pub open spec fn frame_step(pending: Seq<u8>, max_len: int) -> (
    Result<Option<Seq<char>>, FrameError>,
    int,
) {
    let at = first_newline(pending);
    if at < pending.len() && at <= max_len {
        (line_of(strip_cr(pending.take(at))), at + 1)
    } else if pending.len() > max_len {
        (Err(FrameError::LineTooLong), 0)
    } else {
        (Ok(None), 0)
    }
}

/// The last steps of framing, when no more bytes will come: as `frame_step`,
/// but what is left without a line feed is a line of its own, unless it is
/// empty or a lone carriage return.
pub open spec fn frame_last(pending: Seq<u8>, max_len: int) -> (
    Result<Option<Seq<char>>, FrameError>,
    int,
) {
    let step = frame_step(pending, max_len);
    if step.0 != Ok::<Option<Seq<char>>, FrameError>(None) {
        step
    } else if pending.len() == 0 || pending == seq![CARRIAGE_RETURN] {
        (Ok(None), 0)
    } else {
        (line_of(strip_cr(pending)), pending.len() as int)
    }
}

/// What a framing step gave, its line as a sequence of characters.
pub open spec fn framed(out: Result<Option<String>, FrameError>) -> Result<
    Option<Seq<char>>,
    FrameError,
> {
    match out {
        Ok(Some(line)) => Ok(Some(line@)),
        Ok(None) => Ok(None),
        Err(e) => Err(e),
    }
}

/// `LinesCodec::decode` of tokio-util, on a codec fresh from
/// `new_with_max_length(max_len)` and a buffer that holds `pending`: the
/// codec's answer, and the bytes it left in the buffer. The answer is the one
/// of `frame_step`; the codec's only `Io` error here is a line that is not
/// UTF-8.
#[verifier::external_body]
fn codec_decode(pending: &[u8], max_len: usize) -> (out: (
    Result<Option<String>, FrameError>,
    Vec<u8>,
))
    ensures
        framed(out.0) == frame_step(pending@, max_len as int).0,
        out.1@ == pending@.skip(frame_step(pending@, max_len as int).1),
{
    let mut buf = BytesMut::from(pending);
    let answer = match LinesCodec::new_with_max_length(max_len).decode(&mut buf) {
        Ok(line) => Ok(line),
        Err(LinesCodecError::MaxLineLengthExceeded) => Err(FrameError::LineTooLong),
        Err(LinesCodecError::Io(_)) => Err(FrameError::InvalidUtf8),
    };
    (answer, buf.to_vec())
}

/// `LinesCodec::decode_eof` of tokio-util, on a codec fresh from
/// `new_with_max_length(max_len)` and a buffer that holds `pending`: the
/// codec's answer, and the bytes it left in the buffer. The answer is the one
/// of `frame_last`.
#[verifier::external_body]
fn codec_decode_eof(pending: &[u8], max_len: usize) -> (out: (
    Result<Option<String>, FrameError>,
    Vec<u8>,
))
    ensures
        framed(out.0) == frame_last(pending@, max_len as int).0,
        out.1@ == pending@.skip(frame_last(pending@, max_len as int).1),
{
    let mut buf = BytesMut::from(pending);
    let answer = match LinesCodec::new_with_max_length(max_len).decode_eof(&mut buf) {
        Ok(line) => Ok(line),
        Err(LinesCodecError::MaxLineLengthExceeded) => Err(FrameError::LineTooLong),
        Err(LinesCodecError::Io(_)) => Err(FrameError::InvalidUtf8),
    };
    (answer, buf.to_vec())
}

/// `LinesCodec::encode` of tokio-util into an empty buffer: the bytes of
/// `line`, then a line feed. The codec never refuses a line.
#[verifier::external_body]
fn codec_encode(line: &str) -> (out: Option<Vec<u8>>)
    ensures
        out.is_some(),
        out.unwrap()@ == line.spec_bytes().push(LINE_FEED),
{
    let mut buf = BytesMut::new();
    match LinesCodec::new().encode(line, &mut buf) {
        Ok(()) => Some(buf.to_vec()),
        Err(_) => None,
    }
}

/// The first line feed of `bytes` stands where `first_newline` says, and
/// nowhere before.
pub proof fn lemma_first_newline(bytes: Seq<u8>)
    ensures
        0 <= first_newline(bytes) <= bytes.len(),
        forall|i: int| 0 <= i < first_newline(bytes) ==> bytes[i] != LINE_FEED,
        first_newline(bytes) < bytes.len() ==> bytes[first_newline(bytes)] == LINE_FEED,
    decreases bytes.len(),
{
    if bytes.len() > 0 && bytes[0] != LINE_FEED {
        let rest = bytes.drop_first();
        lemma_first_newline(rest);
        assert forall|i: int| 0 <= i < first_newline(bytes) implies bytes[i] != LINE_FEED by {
            if i > 0 {
                assert(rest[i - 1] == bytes[i]);
            }
        }
    }
}

/// Bytes that arrive after a line feed do not change the line before it.
pub proof fn lemma_first_newline_stays(pending: Seq<u8>, more: Seq<u8>)
    requires
        first_newline(pending) < pending.len(),
    ensures
        first_newline(pending + more) == first_newline(pending),
    decreases pending.len(),
{
    let all = pending + more;
    assert(all[0] == pending[0]);
    if pending[0] != LINE_FEED {
        assert(all.drop_first() =~= pending.drop_first() + more);
        lemma_first_newline_stays(pending.drop_first(), more);
    }
}

/// A line that is whole comes out the same however many bytes follow it.
pub proof fn lemma_whole_line_is_final(pending: Seq<u8>, more: Seq<u8>, max_len: int)
    requires
        frame_step(pending, max_len).1 > 0,
    ensures
        frame_step(pending + more, max_len) == frame_step(pending, max_len),
{
    lemma_first_newline(pending);
    lemma_first_newline_stays(pending, more);
    let at = first_newline(pending);
    assert((pending + more).take(at) =~= pending.take(at));
}

/// More than `max_len` bytes with no line feed among the first `max_len + 1`
/// are refused, and stay where they are.
pub proof fn lemma_oversized_line_refused(pending: Seq<u8>, max_len: int)
    requires
        0 <= max_len < pending.len(),
        forall|i: int| 0 <= i <= max_len ==> pending[i] != LINE_FEED,
    ensures
        frame_step(pending, max_len) == (
            Err::<Option<Seq<char>>, FrameError>(FrameError::LineTooLong),
            0int,
        ),
{
    lemma_first_newline(pending);
}

/// The bytes that carry `line` to a client.
pub fn encode_line(line: &str) -> (bytes: Vec<u8>)
    ensures
        bytes@ == line.spec_bytes().push(LINE_FEED),
{
    match codec_encode(line) {
        Some(bytes) => bytes,
        None => Vec::new(),
    }
}

/// Whether more bytes may come.
#[derive(Clone, Copy, PartialEq, Eq, Structural, Debug)]
pub enum Intake {
    /// The connection is being read.
    Open,
    /// The peer has closed its side; what was received is still to be framed.
    Ended,
    /// A read has failed; this is still to be told.
    Broken,
    /// Nothing more will come out.
    Done,
}

/// What a framer has for its connection at one moment.
#[derive(Clone, PartialEq, Eq, Debug)]
pub enum Frame {
    /// The next line, without its terminator.
    Line(String),
    /// The connection cannot be framed any further.
    Failed(FrameError),
    /// No whole line yet: read on.
    Wait,
    /// The stream of lines is over.
    End,
}

/// A frame, its line as a sequence of characters.
pub enum Framed {
    Line(Seq<char>),
    Failed(FrameError),
    Wait,
    End,
}

impl DeepView for Frame {
    type V = Framed;

    open spec fn deep_view(&self) -> Framed {
        match *self {
            Frame::Line(line) => Framed::Line(line@),
            Frame::Failed(e) => Framed::Failed(e),
            Frame::Wait => Framed::Wait,
            Frame::End => Framed::End,
        }
    }
}

/// A framer as a value: the bytes received and not yet framed, and whether
/// more may come.
pub struct Framing {
    pub pending: Seq<u8>,
    pub intake: Intake,
}

/// What a framer gives next, and what it is afterwards. While the connection
/// is read, whole lines come out one by one, and an error ends the framing.
/// When the peer has closed, the rest is framed to its end. A failed read is
/// told once.
pub open spec fn next_frame(framing: Framing, max_len: int) -> (Framed, Framing) {
    match framing.intake {
        Intake::Open => {
            let step = frame_step(framing.pending, max_len);
            let rest = framing.pending.skip(step.1);
            match step.0 {
                Ok(Some(line)) => (Framed::Line(line), Framing { pending: rest, intake: Intake::Open }),
                Ok(None) => (Framed::Wait, Framing { pending: rest, intake: Intake::Open }),
                Err(e) => (Framed::Failed(e), Framing { pending: rest, intake: Intake::Done }),
            }
        },
        Intake::Ended => {
            let step = frame_last(framing.pending, max_len);
            let rest = framing.pending.skip(step.1);
            match step.0 {
                Ok(Some(line)) => (
                    Framed::Line(line),
                    Framing { pending: rest, intake: Intake::Ended },
                ),
                Ok(None) => (Framed::End, Framing { pending: rest, intake: Intake::Done }),
                Err(e) => (Framed::Failed(e), Framing { pending: rest, intake: Intake::Done }),
            }
        },
        Intake::Broken => (
            Framed::Failed(FrameError::Io),
            Framing { pending: framing.pending, intake: Intake::Done },
        ),
        Intake::Done => (Framed::End, framing),
    }
}

/// The framer of one connection.
pub struct LineFramer {
    pending: Vec<u8>,
    intake: Intake,
}

impl View for LineFramer {
    type V = Framing;

    closed spec fn view(&self) -> Framing {
        Framing { pending: self.pending@, intake: self.intake }
    }
}

impl LineFramer {
    /// The framer of a connection from which nothing has been read yet.
    pub fn new() -> (framer: LineFramer)
        ensures
            framer@ == (Framing { pending: Seq::empty(), intake: Intake::Open }),
    {
        LineFramer { pending: Vec::new(), intake: Intake::Open }
    }

    /// The number of bytes received and not yet framed.
    pub fn pending_len(&self) -> (n: usize)
        ensures
            n == self@.pending.len(),
    {
        self.pending.len()
    }

    /// Whether more bytes may come.
    pub fn intake(&self) -> (intake: Intake)
        ensures
            intake == self@.intake,
    {
        self.intake
    }

    /// Takes the bytes of one read. Bytes that come after the end of the
    /// connection are not kept.
    pub fn push(&mut self, bytes: &[u8])
        ensures
            final(self)@.intake == old(self)@.intake,
            final(self)@.pending == if old(self)@.intake == Intake::Open {
                old(self)@.pending + bytes@
            } else {
                old(self)@.pending
            },
    {
        if self.intake != Intake::Open {
            return ;
        }
        let mut i: usize = 0;
        proof {
            assert(bytes@.take(0) =~= Seq::empty());
            assert(self.pending@ =~= old(self).pending@ + bytes@.take(0));
        }
        while i < bytes.len()
            invariant
                i <= bytes@.len(),
                self.intake == old(self).intake,
                self.pending@ == old(self).pending@ + bytes@.take(i as int),
            decreases bytes@.len() - i,
        {
            self.pending.push(bytes[i]);
            proof {
                assert(bytes@.take(i + 1) =~= bytes@.take(i as int).push(bytes@[i as int]));
                assert(self.pending@ =~= old(self).pending@ + bytes@.take(i + 1));
            }
            i += 1;
        }
        proof {
            assert(bytes@.take(i as int) =~= bytes@);
        }
    }

    /// Takes note that the peer has closed its side.
    pub fn close(&mut self)
        ensures
            final(self)@.pending == old(self)@.pending,
            final(self)@.intake == if old(self)@.intake == Intake::Open {
                Intake::Ended
            } else {
                old(self)@.intake
            },
    {
        if self.intake == Intake::Open {
            self.intake = Intake::Ended;
        }
    }

    /// Takes note that a read has failed.
    pub fn break_off(&mut self)
        ensures
            final(self)@.pending == old(self)@.pending,
            final(self)@.intake == if old(self)@.intake == Intake::Open {
                Intake::Broken
            } else {
                old(self)@.intake
            },
    {
        if self.intake == Intake::Open {
            self.intake = Intake::Broken;
        }
    }

    /// What the connection has next.
    pub fn next(&mut self) -> (frame: Frame)
        ensures
            (frame.deep_view(), final(self)@) == next_frame(old(self)@, MAX_LINE_LENGTH as int),
    {
        match self.intake {
            Intake::Open => {
                let (step, rest) = codec_decode(self.pending.as_slice(), MAX_LINE_LENGTH);
                self.pending = rest;
                match step {
                    Ok(Some(line)) => Frame::Line(line),
                    Ok(None) => Frame::Wait,
                    Err(e) => {
                        self.intake = Intake::Done;
                        Frame::Failed(e)
                    },
                }
            },
            Intake::Ended => {
                let (step, rest) = codec_decode_eof(self.pending.as_slice(), MAX_LINE_LENGTH);
                self.pending = rest;
                match step {
                    Ok(Some(line)) => Frame::Line(line),
                    Ok(None) => {
                        self.intake = Intake::Done;
                        Frame::End
                    },
                    Err(e) => {
                        self.intake = Intake::Done;
                        Frame::Failed(e)
                    },
                }
            },
            Intake::Broken => {
                self.intake = Intake::Done;
                Frame::Failed(FrameError::Io)
            },
            Intake::Done => Frame::End,
        }
    }
}

/// Once a framer has failed or ended, it ends for ever.
pub proof fn lemma_done_is_final(framing: Framing, max_len: int)
    ensures
        next_frame(framing, max_len).0 is Failed || next_frame(framing, max_len).0 is End
            ==> next_frame(framing, max_len).1.intake == Intake::Done,
        framing.intake == Intake::Done ==> next_frame(framing, max_len) == (Framed::End, framing),
{
}

} // verus!
