//! Binary message protocol between the gateway and its clients, and the
//! one-byte framing that marks a gzip-compressed payload.
//!
//! A frame is a flag byte followed by a body. Flag 1 means the body is the
//! gzip form of the serialized message; any other flag means the body is
//! the serialized message itself. Serialization of a message into bytes is
//! left to the caller; this module owns the framing rules.
use vstd::prelude::*;

verus! {

/// A message of the binary protocol.
#[derive(Debug, Clone)]
#[allow(inconsistent_fields)]
pub enum BinaryMessage {
    /// Terminal output; `compressed` marks a payload worth compressing.
    TerminalOutput { data: Vec<u8>, compressed: bool },
    /// Terminal input typed by the user.
    TerminalInput { data: String },
    /// Terminal resize event.
    Resize { cols: u16, rows: u16 },
    /// Keepalive probe.
    Ping,
    /// Keepalive answer.
    Pong,
    /// Session information.
    SessionInfo { session_id: String, message: String },
    /// Error report.
    Error { code: String, message: String },
}

/// Terminal output longer than this many bytes is marked for compression.
pub const OUTPUT_COMPRESSION_MARK: usize = 512;

/// Serialized messages longer than this many bytes are offered to gzip.
pub const FRAME_COMPRESSION_THRESHOLD: usize = 1024;

/// Flag byte of a frame whose body is gzip-compressed.
pub const FLAG_COMPRESSED: u8 = 1;

/// Flag byte of a frame whose body is stored as is.
pub const FLAG_PLAIN: u8 = 0;

impl BinaryMessage {
    /// Creates a terminal output message, marked for compression when the
    /// data is longer than `OUTPUT_COMPRESSION_MARK` bytes.
    pub fn terminal_output(data: Vec<u8>) -> (r: Self)
        ensures
            r == (BinaryMessage::TerminalOutput { data, compressed: data.len() > OUTPUT_COMPRESSION_MARK }),
    {
        let compressed = data.len() > OUTPUT_COMPRESSION_MARK;
        BinaryMessage::TerminalOutput { data, compressed }
    }

    /// Creates a terminal input message.
    pub fn terminal_input(data: String) -> (r: Self)
        ensures
            r == (BinaryMessage::TerminalInput { data }),
    {
        BinaryMessage::TerminalInput { data }
    }

    /// Creates a resize message.
    pub fn resize(cols: u16, rows: u16) -> (r: Self)
        ensures
            r == (BinaryMessage::Resize { cols, rows }),
    {
        BinaryMessage::Resize { cols, rows }
    }

    /// Creates a session information message.
    pub fn session_info(session_id: String, message: String) -> (r: Self)
        ensures
            r == (BinaryMessage::SessionInfo { session_id, message }),
    {
        BinaryMessage::SessionInfo { session_id, message }
    }

    /// Creates an error message.
    pub fn error(code: String, message: String) -> (r: Self)
        ensures
            r == (BinaryMessage::Error { code, message }),
    {
        BinaryMessage::Error { code, message }
    }
}

/// Why a frame could not be built or read.
#[derive(Debug, Clone, Copy, PartialEq, Eq, Structural)]
pub enum FrameError {
    /// The frame holds no flag byte.
    Empty,
    /// The gzip encoder reported a failure.
    Compression,
    /// The body of a compressed frame is not valid gzip data.
    Decompression,
}

/// The gzip stream that flate2 writes for `data` at its fast level.
pub uninterp spec fn gzip_fast_of(data: Seq<u8>) -> Seq<u8>;

/// What flate2 inflates a gzip stream into, or `None` where it rejects it.
pub uninterp spec fn gunzip_of(data: Seq<u8>) -> Option<Seq<u8>>;

/// Relies on flate2's `GzEncoder` with `Compression::fast()`, writing into
/// a `Vec`: the stream it finishes with depends on the input bytes alone,
/// and flate2's `GzDecoder` inflates it back into those bytes.
#[verifier::external_body]
fn gzip_fast(data: &[u8]) -> (r: Result<Vec<u8>, FrameError>)
    ensures
        match r {
            Ok(v) => v@ == gzip_fast_of(data@) && gunzip_of(v@) == Some(data@),
            Err(e) => e == FrameError::Compression,
        },
{
    let mut encoder = flate2::write::GzEncoder::new(Vec::new(), flate2::Compression::fast());
    if std::io::Write::write_all(&mut encoder, data).is_err() {
        return Err(FrameError::Compression);
    }
    encoder.finish().map_err(|_| FrameError::Compression)
}

/// Relies on flate2's `GzDecoder` read to the end over a byte slice:
/// whether the stream inflates, and into what, depends on its bytes alone.
#[verifier::external_body]
fn gunzip(data: &[u8]) -> (r: Result<Vec<u8>, FrameError>)
    ensures
        match r {
            Ok(v) => gunzip_of(data@) == Some(v@),
            Err(e) => gunzip_of(data@) is None && e == FrameError::Decompression,
        },
{
    let mut decoder = flate2::read::GzDecoder::new(data);
    let mut out = Vec::new();
    match std::io::Read::read_to_end(&mut decoder, &mut out) {
        Ok(_) => Ok(out),
        Err(_) => Err(FrameError::Decompression),
    }
}

/// The frame that stores `body` behind the flag byte `flag`.
pub open spec fn frame_of(flag: u8, body: Seq<u8>) -> Seq<u8> {
    seq![flag] + body
}

/// The frame chosen for a serialized message once its gzip form is known:
/// the gzip form only where it is strictly shorter.
pub open spec fn chosen_frame(serialized: Seq<u8>, compressed: Seq<u8>) -> Seq<u8> {
    if compressed.len() < serialized.len() {
        frame_of(FLAG_COMPRESSED, compressed)
    } else {
        frame_of(FLAG_PLAIN, serialized)
    }
}

/// Builds the frame `flag` followed by `body`.
fn with_flag(flag: u8, body: &[u8]) -> (r: Vec<u8>)
    ensures
        r@ == frame_of(flag, body@),
{
    let mut out: Vec<u8> = Vec::new();
    out.push(flag);
    let mut i: usize = 0;
    while i < body.len()
        invariant
            0 <= i <= body@.len(),
            out@ == frame_of(flag, body@.subrange(0, i as int)),
        decreases body@.len() - i,
    {
        out.push(body[i]);
        i = i + 1;
        proof {
            assert(body@.subrange(0, i as int) =~= body@.subrange(0, i - 1).push(body@[i - 1]));
        }
    }
    assert(body@.subrange(0, body@.len() as int) =~= body@);
    out
}

/// Copies `data` from index `start` to its end.
fn tail_from(data: &[u8], start: usize) -> (r: Vec<u8>)
    requires
        start <= data@.len(),
    ensures
        r@ == data@.subrange(start as int, data@.len() as int),
{
    let mut out: Vec<u8> = Vec::new();
    let mut i: usize = start;
    while i < data.len()
        invariant
            start <= i <= data@.len(),
            out@ == data@.subrange(start as int, i as int),
        decreases data@.len() - i,
    {
        out.push(data[i]);
        i = i + 1;
        proof {
            assert(data@.subrange(start as int, i as int)
                =~= data@.subrange(start as int, i - 1).push(data@[i - 1]));
        }
    }
    out
}

/// Picks the frame for `serialized` given its gzip form `compressed`: the
/// compressed frame only where it saves space.
pub fn choose_frame(serialized: &[u8], compressed: &[u8]) -> (r: Vec<u8>)
    ensures
        r@ == chosen_frame(serialized@, compressed@),
{
    if compressed.len() < serialized.len() {
        with_flag(FLAG_COMPRESSED, compressed)
    } else {
        with_flag(FLAG_PLAIN, serialized)
    }
}

/// Frames a serialized message. Messages up to the threshold are stored
/// as is; longer ones are offered to gzip and the shorter form is kept.
pub fn encode_frame(serialized: &[u8]) -> (r: Result<Vec<u8>, FrameError>)
    ensures
        serialized@.len() <= FRAME_COMPRESSION_THRESHOLD ==> (r matches Ok(v) && v@ == frame_of(FLAG_PLAIN, serialized@)),
        serialized@.len() > FRAME_COMPRESSION_THRESHOLD ==> match r {
            Ok(v) => v@ == chosen_frame(serialized@, gzip_fast_of(serialized@)),
            Err(e) => e == FrameError::Compression,
        },
        r matches Ok(v) ==> frame_payload(v@) == Some(serialized@),
{
    if serialized.len() > FRAME_COMPRESSION_THRESHOLD {
        match gzip_fast(serialized) {
            Ok(compressed) => {
                proof {
                    lemma_frame_round_trip(serialized@, compressed@);
                }
                Ok(choose_frame(serialized, compressed.as_slice()))
            },
            Err(e) => Err(e),
        }
    } else {
        let framed = with_flag(FLAG_PLAIN, serialized);
        proof {
            assert(framed@.subrange(1, framed@.len() as int) =~= serialized@);
        }
        Ok(framed)
    }
}

/// The serialized message a frame carries, or `None` where it carries none:
/// an empty frame carries nothing, flag 1 marks a gzip body, any other
/// flag a plain one.
pub open spec fn frame_payload(frame: Seq<u8>) -> Option<Seq<u8>> {
    if frame.len() == 0 {
        None
    } else if frame[0] == FLAG_COMPRESSED {
        gunzip_of(frame.subrange(1, frame.len() as int))
    } else {
        Some(frame.subrange(1, frame.len() as int))
    }
}

/// Reading a frame back gives the message it was made from, whether it was
/// stored plain or as a gzip body that inflates back to the message.
pub proof fn lemma_frame_round_trip(serialized: Seq<u8>, compressed: Seq<u8>)
    requires
        gunzip_of(compressed) == Some(serialized),
    ensures
        frame_payload(frame_of(FLAG_PLAIN, serialized)) == Some(serialized),
        frame_payload(chosen_frame(serialized, compressed)) == Some(serialized),
{
    assert(frame_of(FLAG_PLAIN, serialized).subrange(1, serialized.len() + 1 as int) =~= serialized);
    assert(frame_of(FLAG_COMPRESSED, compressed).subrange(1, compressed.len() + 1 as int) =~= compressed);
}

/// Reads a frame back into the serialized message it carries.
pub fn decode_frame(data: &[u8]) -> (r: Result<Vec<u8>, FrameError>)
    ensures
        data@.len() == 0 ==> r == Err::<Vec<u8>, FrameError>(FrameError::Empty),
        data@.len() > 0 && data@[0] != FLAG_COMPRESSED ==> (r matches Ok(v) && v@ == data@.subrange(1, data@.len() as int)),
        data@.len() > 0 && data@[0] == FLAG_COMPRESSED ==> match gunzip_of(data@.subrange(1, data@.len() as int)) {
            Some(body) => (r matches Ok(v) && v@ == body),
            None => r == Err::<Vec<u8>, FrameError>(FrameError::Decompression),
        },
        match frame_payload(data@) {
            Some(p) => (r matches Ok(v) && v@ == p),
            None => r is Err,
        },
{
    if data.len() == 0 {
        return Err(FrameError::Empty);
    }
    let body = tail_from(data, 1);
    if data[0] == FLAG_COMPRESSED {
        gunzip(body.as_slice())
    } else {
        Ok(body)
    }
}

} // verus!
