//! Session hello messages and the newline-delimited framing they travel in.
use vstd::prelude::*;

verus! {

/// The ALPN protocol identifier of overlay sessions.
pub open spec fn alpn_spec() -> Seq<u8> {
    seq![0x6fu8, 0x76u8, 0x65u8, 0x72u8, 0x6cu8, 0x61u8, 0x79u8, 0x2fu8, 0x31u8]
}

/// The ALPN protocol identifier of overlay sessions: `overlay/1`.
pub fn session_alpn() -> (r: Vec<u8>)
    ensures
        r@ == alpn_spec(),
{
    let mut r: Vec<u8> = Vec::new();
    r.push(0x6f);
    r.push(0x76);
    r.push(0x65);
    r.push(0x72);
    r.push(0x6c);
    r.push(0x61);
    r.push(0x79);
    r.push(0x2f);
    r.push(0x31);
    assert(r@ =~= alpn_spec());
    r
}

/// A stream opened for a service.
pub struct OpenedStream {
    pub service_id: String,
}

/// The first message on a relay connection: who is speaking.
#[derive(Debug)]
pub enum RelayHello {
    /// A node registering with the relay.
    Node { node_id: String, shared_secret: String },
    /// A client asking for a node.
    Client { node_id: String },
}

/// The first message of a session: the signed token and the service asked for.
#[derive(Debug)]
pub struct SessionHello {
    pub token: String,
    pub service_id: String,
}

/// Largest hello line accepted, in bytes, before the newline.
pub const MAX_HELLO_LINE: usize = 16384;

/// One encoded message followed by the newline that ends it.
pub fn frame_line(payload: &[u8]) -> (r: Vec<u8>)
    ensures
        r@ == payload@.push(0x0au8),
{
    let mut r = crate::transport::udp_session::slice_bytes(payload, 0, payload.len());
    assert(r@ =~= payload@);
    r.push(0x0a);
    r
}

/// What reading one more byte of a hello line gives.
#[derive(Debug)]
pub enum LineStep {
    /// The line goes on; read another byte.
    More,
    /// The newline came: the complete line, without it.
    Line(Vec<u8>),
    /// The newline came first: there was no message.
    Missing,
    /// The line grew past the limit.
    TooLarge,
}

/// What reading a hello line comes to.
pub enum LineOutcome {
    /// The complete line, without its newline.
    Line(Seq<u8>),
    /// The newline came first.
    Missing,
    /// The line grew past the limit.
    TooLarge,
}

impl LineStep {
    /// What a step came to, if the line ended or was refused.
    pub open spec fn outcome(self) -> Option<LineOutcome> {
        match self {
            LineStep::More => None,
            LineStep::Line(l) => Some(LineOutcome::Line(l@)),
            LineStep::Missing => Some(LineOutcome::Missing),
            LineStep::TooLarge => Some(LineOutcome::TooLarge),
        }
    }
}

/// One byte taken in by a reader holding `line`: the line after it, and what it came to.
pub open spec fn reader_step(line: Seq<u8>, byte: u8) -> (Seq<u8>, Option<LineOutcome>) {
    if byte == 0x0au8 {
        (line, if line.len() == 0 { Some(LineOutcome::Missing) } else { Some(LineOutcome::Line(line)) })
    } else if line.len() + 1 > MAX_HELLO_LINE {
        (line.push(byte), Some(LineOutcome::TooLarge))
    } else {
        (line.push(byte), None)
    }
}

/// What a reader holding `line` comes to when fed `bytes` one at a time: the first outcome, or
/// `None` while the line goes on.
pub open spec fn read_line_from(line: Seq<u8>, bytes: Seq<u8>) -> Option<LineOutcome>
    decreases bytes.len(),
{
    if bytes.len() == 0 {
        None
    } else {
        let (next, outcome) = reader_step(line, bytes[0]);
        match outcome {
            Some(o) => Some(o),
            None => read_line_from(next, bytes.drop_first()),
        }
    }
}

/// Reads a hello line byte by byte.
pub struct LineReader {
    pub line: Vec<u8>,
}

impl LineReader {
    /// A reader at the start of a line.
    pub fn new() -> (r: LineReader)
        ensures
            r.line@.len() == 0,
    {
        LineReader { line: Vec::new() }
    }

    /// Takes in one byte: a newline ends the line (an empty one means a missing message); any
    /// other byte is added, and a line longer than `MAX_HELLO_LINE` bytes is refused.
    pub fn push_byte(&mut self, byte: u8) -> (step: LineStep)
        requires
            old(self).line@.len() <= MAX_HELLO_LINE,
        ensures
            byte == 0x0a && old(self).line@.len() == 0 ==> step is Missing,
            byte == 0x0a && old(self).line@.len() > 0 ==> (step matches LineStep::Line(l) && l@ == old(self).line@),
            byte == 0x0a ==> final(self).line@ == old(self).line@,
            byte != 0x0a ==> final(self).line@ == old(self).line@.push(byte),
            byte != 0x0a && old(self).line@.len() + 1 > MAX_HELLO_LINE ==> step is TooLarge,
            byte != 0x0a && old(self).line@.len() + 1 <= MAX_HELLO_LINE ==> step is More,
            (final(self).line@, step.outcome()) == reader_step(old(self).line@, byte),
    {
        if byte == 0x0a {
            if self.line.len() == 0 {
                return LineStep::Missing;
            }
            let l = crate::transport::udp_session::slice_bytes(&self.line, 0, self.line.len());
            assert(l@ =~= self.line@);
            return LineStep::Line(l);
        }
        self.line.push(byte);
        if self.line.len() > MAX_HELLO_LINE {
            LineStep::TooLarge
        } else {
            LineStep::More
        }
    }
}

/// A framed message reads back: fed its frame byte by byte, a fresh reader ends the line with
/// exactly the message, when the message is not empty, holds no newline and fits the limit.
pub proof fn lemma_frame_reads_back(payload: Seq<u8>)
    requires
        0 < payload.len() <= MAX_HELLO_LINE,
        forall|i: int| 0 <= i < payload.len() ==> #[trigger] payload[i] != 0x0au8,
    ensures
        read_line_from(Seq::<u8>::empty(), payload.push(0x0au8)) == Some(LineOutcome::Line(payload)),
{
    assert(Seq::<u8>::empty() + payload =~= payload);
    lemma_read_rest(payload, Seq::<u8>::empty(), payload);
}

proof fn lemma_read_rest(payload: Seq<u8>, done: Seq<u8>, rest: Seq<u8>)
    requires
        0 < payload.len() <= MAX_HELLO_LINE,
        forall|i: int| 0 <= i < payload.len() ==> #[trigger] payload[i] != 0x0au8,
        done + rest == payload,
    ensures
        read_line_from(done, rest.push(0x0au8)) == Some(LineOutcome::Line(payload)),
    decreases rest.len(),
{
    let bytes = rest.push(0x0au8);
    if rest.len() == 0 {
        assert(done =~= payload);
        assert(bytes[0] == 0x0au8);
    } else {
        assert(bytes[0] == rest[0]);
        assert(rest[0] == payload[done.len() as int]);
        assert(done.len() + 1 <= payload.len());
        assert(bytes.drop_first() =~= rest.drop_first().push(0x0au8));
        assert(done.push(rest[0]) + rest.drop_first() =~= payload);
        lemma_read_rest(payload, done.push(rest[0]), rest.drop_first());
    }
}

} // verus!
