//! Decisions of the per-session bridge between the client transport and the
//! SSH channel. The transport tasks and the SSH thread perform the I/O and
//! hand each outcome to these functions, which say what happens next.
use vstd::prelude::*;
use vstd::string::*;
use vstd::utf8::encode_utf8;
use crate::text::{bytes_contain, contains_seq, decimal, decimal_text, joined, text_contains};

verus! {

/// Smallest terminal height the gateway asks of a PTY.
pub const MIN_ROWS: u32 = 24;

/// Smallest terminal width the gateway asks of a PTY.
pub const MIN_COLS: u32 = 80;

/// Pause, in milliseconds, between an error frame and closing the transport.
pub const ERROR_FLUSH_PAUSE_MS: u64 = 100;

/// Pause, in milliseconds, between an output frame and its refresh hint.
pub const REFRESH_PAUSE_MS: u64 = 10;

/// Pause, in milliseconds, between two rounds of the SSH thread.
pub const PUMP_PAUSE_MS: u64 = 10;

/// Largest read, in bytes, that the SSH thread makes in one round.
pub const READ_CHUNK: usize = 4096;

/// `v`, raised to `floor` where it is below.
pub open spec fn at_least(v: u32, floor: u32) -> u32 {
    if v >= floor {
        v
    } else {
        floor
    }
}

/// Raises a requested terminal size to at least `MIN_ROWS` x `MIN_COLS`.
pub fn clamp_dimensions(rows: u32, cols: u32) -> (r: (u32, u32))
    ensures
        r == (at_least(rows, MIN_ROWS), at_least(cols, MIN_COLS)),
{
    let r = if rows >= MIN_ROWS { rows } else { MIN_ROWS };
    let c = if cols >= MIN_COLS { cols } else { MIN_COLS };
    (r, c)
}

/// A control command carried by a client text frame.
pub enum WSCommand {
    /// The terminal window changed size.
    Resize { rows: u32, cols: u32 },
    /// Characters typed by the user.
    Input { data: String },
    /// Liveness probe.
    Ping,
}

/// A frame received from the client.
pub enum ClientFrame {
    /// A text frame that decodes to a command.
    Command(WSCommand),
    /// A text frame that does not decode to a command.
    Malformed,
    /// A binary frame: raw bytes for the SSH channel.
    Binary(Vec<u8>),
    /// The client closes the transport.
    Close,
    /// A transport control frame with no meaning to the bridge.
    Other,
}

/// A text frame sent by the gateway.
pub enum ServerFrame {
    /// Answer to a ping.
    Pong,
    /// Informational message.
    Info { message: String },
    /// Error message.
    Error { message: String },
    /// Hint that a full-screen application may need a repaint.
    Refresh { fullscreen: bool },
}

/// What the receiver does with one client frame.
pub enum ReceiverStep {
    /// Queue these bytes for the SSH channel.
    ForwardInput(Vec<u8>),
    /// Queue this resize, already clamped, for the SSH thread; once it is
    /// queued, send `ack` to the client.
    ForwardResize { rows: u32, cols: u32, ack: ServerFrame },
    /// Send this frame to the client.
    Reply(ServerFrame),
    /// Drop the frame.
    Ignore,
    /// Stop receiving.
    Stop,
}

/// Text of the acknowledgment of a resize to `cols` x `rows`.
pub open spec fn resize_ack_text(rows: u32, cols: u32) -> Seq<char> {
    "Terminal resized to "@ + decimal(cols as nat) + "x"@ + decimal(rows as nat)
}

/// The acknowledgment frame of a resize to `cols` x `rows`.
pub fn resize_ack(rows: u32, cols: u32) -> (r: ServerFrame)
    ensures
        r matches ServerFrame::Info { message } && message@ == resize_ack_text(rows, cols),
{
    let c = decimal_text(cols);
    let r = decimal_text(rows);
    let a = joined("Terminal resized to ", c.as_str());
    let b = joined(a.as_str(), "x");
    let message = joined(b.as_str(), r.as_str());
    ServerFrame::Info { message }
}

/// Copies a byte slice into a vector.
pub fn bytes_to_vec(b: &[u8]) -> (r: Vec<u8>)
    ensures
        r@ == b@,
{
    let mut out: Vec<u8> = Vec::new();
    let mut i: usize = 0;
    while i < b.len()
        invariant
            0 <= i <= b@.len(),
            out@ == b@.subrange(0, i as int),
        decreases b@.len() - i,
    {
        out.push(b[i]);
        i = i + 1;
        proof {
            assert(b@.subrange(0, i as int) =~= b@.subrange(0, i - 1).push(b@[i - 1]));
        }
    }
    assert(b@.subrange(0, b@.len() as int) =~= b@);
    out
}

/// `step` queues a resize to `cols` x `rows` and acknowledges it with the
/// text of `resize_ack_text`.
pub open spec fn forwards_resize(step: ReceiverStep, rows: u32, cols: u32) -> bool {
    match step {
        ReceiverStep::ForwardResize { rows: r, cols: c, ack } => r == rows && c == cols && match ack {
            ServerFrame::Info { message } => message@ == resize_ack_text(rows, cols),
            _ => false,
        },
        _ => false,
    }
}

/// Decides what the receiver does with one client frame. `resize_attached`
/// tells whether the session has a resize queue.
pub fn receive_frame(frame: ClientFrame, resize_attached: bool) -> (r: ReceiverStep)
    ensures
        match frame {
            ClientFrame::Command(WSCommand::Input { data }) => r matches ReceiverStep::ForwardInput(b)
                && b@ == encode_utf8(data@),
            ClientFrame::Command(WSCommand::Resize { rows, cols }) => if resize_attached {
                forwards_resize(r, at_least(rows, MIN_ROWS), at_least(cols, MIN_COLS))
            } else {
                r is Ignore
            },
            ClientFrame::Command(WSCommand::Ping) => r matches ReceiverStep::Reply(f) && f is Pong,
            ClientFrame::Binary(b) => r == ReceiverStep::ForwardInput(b),
            ClientFrame::Malformed => r is Ignore,
            ClientFrame::Close => r is Stop,
            ClientFrame::Other => r is Ignore,
        },
{
    match frame {
        ClientFrame::Command(WSCommand::Input { data }) => {
            ReceiverStep::ForwardInput(bytes_to_vec(data.as_str().as_bytes()))
        },
        ClientFrame::Command(WSCommand::Resize { rows, cols }) => {
            if resize_attached {
                let (r, c) = clamp_dimensions(rows, cols);
                ReceiverStep::ForwardResize { rows: r, cols: c, ack: resize_ack(r, c) }
            } else {
                ReceiverStep::Ignore
            }
        },
        ClientFrame::Command(WSCommand::Ping) => ReceiverStep::Reply(ServerFrame::Pong),
        ClientFrame::Binary(b) => ReceiverStep::ForwardInput(b),
        ClientFrame::Malformed => ReceiverStep::Ignore,
        ClientFrame::Close => ReceiverStep::Stop,
        ClientFrame::Other => ReceiverStep::Ignore,
    }
}

/// Text of the frame sent when the SSH side no longer takes input.
pub open spec fn input_closed_text() -> Seq<char> {
    "SSH connection has been closed. Please reconnect."@
}

/// The frame sent when the SSH side no longer takes input; the transport
/// is closed `ERROR_FLUSH_PAUSE_MS` after it.
pub fn input_closed_notice() -> (r: ServerFrame)
    ensures
        r matches ServerFrame::Error { message } && message@ == input_closed_text(),
{
    ServerFrame::Error { message: "SSH connection has been closed. Please reconnect.".to_owned() }
}

/// The output chunk marks a full-screen application: it holds cursor-home
/// `ESC [ H` or clear-screen `ESC [ 2 J`.
pub open spec fn marks_fullscreen(chunk: Seq<u8>) -> bool {
    contains_seq(chunk, "\x1b[H".spec_bytes()) || contains_seq(chunk, "\x1b[2J".spec_bytes())
}

/// The output chunk looks like the header of `top`.
pub open spec fn marks_top(chunk: Seq<u8>) -> bool {
    ||| contains_seq(chunk, "top -".spec_bytes())
    ||| contains_seq(chunk, "Tasks:".spec_bytes())
    ||| contains_seq(chunk, "Cpu(s):".spec_bytes())
}

/// What the output task sends for one chunk of terminal output.
pub struct OutputFrames {
    /// Payload of the binary frame: the chunk, unchanged.
    pub data: Vec<u8>,
    /// Where set, a refresh frame with this `fullscreen` flag follows the
    /// binary frame after `REFRESH_PAUSE_MS`.
    pub refresh: Option<bool>,
}

/// What the output task has seen so far; both marks latch.
pub struct OutputWatch {
    pub saw_fullscreen: bool,
    pub saw_top: bool,
}

impl OutputWatch {
    /// A watch that has seen nothing yet.
    pub fn new() -> (r: Self)
        ensures
            !r.saw_fullscreen,
            !r.saw_top,
    {
        OutputWatch { saw_fullscreen: false, saw_top: false }
    }

    /// Takes one chunk of terminal output: forwards it unchanged, latches
    /// the marks it carries, and asks for a refresh frame once either mark
    /// is latched.
    pub fn on_chunk(&mut self, chunk: Vec<u8>) -> (r: OutputFrames)
        ensures
            final(self).saw_fullscreen == (old(self).saw_fullscreen || marks_fullscreen(chunk@)),
            final(self).saw_top == (old(self).saw_top || marks_top(chunk@)),
            r.data == chunk,
            r.refresh == (if final(self).saw_fullscreen || final(self).saw_top {
                Some(final(self).saw_fullscreen)
            } else {
                None::<bool>
            }),
    {
        if !self.saw_fullscreen {
            if bytes_contain(chunk.as_slice(), "\x1b[H".as_bytes())
                || bytes_contain(chunk.as_slice(), "\x1b[2J".as_bytes()) {
                self.saw_fullscreen = true;
            }
        }
        if !self.saw_top {
            if bytes_contain(chunk.as_slice(), "top -".as_bytes())
                || bytes_contain(chunk.as_slice(), "Tasks:".as_bytes())
                || bytes_contain(chunk.as_slice(), "Cpu(s):".as_bytes()) {
                self.saw_top = true;
            }
        }
        let refresh = if self.saw_fullscreen || self.saw_top {
            Some(self.saw_fullscreen)
        } else {
            None
        };
        OutputFrames { data: chunk, refresh }
    }
}

/// Full-screen latching over two chunks, as `on_chunk` states each step: a
/// first chunk holding clear-screen latches the mark, and the next chunk,
/// whatever it holds, is followed by a refresh frame with `fullscreen` set.
/// A watch that has seen no mark, given a chunk without one, asks for no
/// refresh.
pub proof fn lemma_clear_screen_latches(
    start: OutputWatch,
    first: Seq<u8>,
    after_first: OutputWatch,
    next: Seq<u8>,
    after_next: OutputWatch,
    refresh: Option<bool>,
)
    requires
        after_first.saw_fullscreen == (start.saw_fullscreen || marks_fullscreen(first)),
        after_first.saw_top == (start.saw_top || marks_top(first)),
        after_next.saw_fullscreen == (after_first.saw_fullscreen || marks_fullscreen(next)),
        after_next.saw_top == (after_first.saw_top || marks_top(next)),
        refresh == (if after_next.saw_fullscreen || after_next.saw_top {
            Some(after_next.saw_fullscreen)
        } else {
            None::<bool>
        }),
    ensures
        contains_seq(first, "\x1b[2J".spec_bytes()) ==> after_first.saw_fullscreen && refresh == Some(true),
        !start.saw_fullscreen && !start.saw_top && !marks_fullscreen(first) && !marks_top(first)
            && !marks_fullscreen(next) && !marks_top(next) ==> refresh is None,
{
}

/// Terminal output is forwarded as read: escape sequences pass unchanged.
pub fn clean_control_sequences(input: &[u8]) -> (r: Vec<u8>)
    ensures
        r@ == input@,
{
    bytes_to_vec(input)
}

/// Kind of an I/O error on the SSH channel.
#[derive(PartialEq, Eq, Structural)]
pub enum IoErrorKind {
    WouldBlock,
    BrokenPipe,
    ConnectionReset,
    Other,
}

/// Outcome of one non-blocking read from the SSH channel.
pub enum ChannelRead {
    /// Bytes were read.
    Data(Vec<u8>),
    /// Nothing was read; `eof` tells whether the channel reached its end.
    Nothing { eof: bool },
    /// The read failed.
    Failed(IoErrorKind),
}

/// What the SSH thread does after a read.
pub enum ReadVerdict {
    /// Send these bytes to the output queue; stop if it is gone.
    Forward(Vec<u8>),
    /// Set the shutdown flag, send these farewell bytes, and stop.
    Farewell(Vec<u8>),
    /// Go on with the round.
    Idle,
    /// Stop with an error.
    Fail,
}

/// The farewell sent when the server ends the channel.
pub open spec fn farewell_bytes() -> Seq<u8> {
    "\r\n[SSH connection closed]\r\n".spec_bytes()
}

/// Decides what follows a read from the SSH channel.
pub fn judge_read(outcome: ChannelRead) -> (r: ReadVerdict)
    ensures
        match outcome {
            ChannelRead::Data(b) => if b@.len() > 0 {
                r == ReadVerdict::Forward(b)
            } else {
                r is Idle
            },
            ChannelRead::Nothing { eof } => if eof {
                r matches ReadVerdict::Farewell(b) && b@ == farewell_bytes()
            } else {
                r is Idle
            },
            ChannelRead::Failed(kind) => if kind == IoErrorKind::WouldBlock {
                r is Idle
            } else {
                r is Fail
            },
        },
{
    match outcome {
        ChannelRead::Data(b) => {
            if b.len() > 0 {
                ReadVerdict::Forward(b)
            } else {
                ReadVerdict::Idle
            }
        },
        ChannelRead::Nothing { eof } => {
            if eof {
                ReadVerdict::Farewell(bytes_to_vec("\r\n[SSH connection closed]\r\n".as_bytes()))
            } else {
                ReadVerdict::Idle
            }
        },
        ChannelRead::Failed(kind) => {
            if kind == IoErrorKind::WouldBlock {
                ReadVerdict::Idle
            } else {
                ReadVerdict::Fail
            }
        },
    }
}

/// Outcome of writing one input chunk to the SSH channel and flushing it.
pub enum ChannelWrite {
    /// Written and flushed.
    Done,
    /// Written; the flush failed.
    FlushFailed(IoErrorKind),
    /// The write failed, with this kind and error text.
    WriteFailed { kind: IoErrorKind, message: String },
}

/// What the SSH thread does after writing an input chunk.
#[derive(PartialEq, Eq, Structural)]
pub enum WriteVerdict {
    /// Go on with the next queued chunk.
    Next,
    /// Stop draining input for this round.
    Later,
    /// The channel is closed: set the shutdown flag and stop draining.
    Shutdown,
    /// Stop with an error.
    Fail,
}

/// The error says that the channel is closed.
pub open spec fn closes_channel(kind: IoErrorKind, message: Seq<char>) -> bool {
    kind == IoErrorKind::BrokenPipe || kind == IoErrorKind::ConnectionReset || contains_seq(
        message,
        "closed"@,
    )
}

/// What follows a write to the SSH channel with this outcome.
pub open spec fn write_verdict(outcome: ChannelWrite) -> WriteVerdict {
    match outcome {
        ChannelWrite::Done => WriteVerdict::Next,
        ChannelWrite::FlushFailed(kind) => if kind == IoErrorKind::WouldBlock {
            WriteVerdict::Next
        } else {
            WriteVerdict::Fail
        },
        ChannelWrite::WriteFailed { kind, message } => if kind == IoErrorKind::WouldBlock {
            WriteVerdict::Later
        } else if closes_channel(kind, message@) {
            WriteVerdict::Shutdown
        } else {
            WriteVerdict::Fail
        },
    }
}

/// Decides what follows a write to the SSH channel.
pub fn judge_write(outcome: &ChannelWrite) -> (r: WriteVerdict)
    ensures
        r == write_verdict(*outcome),
{
    match outcome {
        ChannelWrite::Done => WriteVerdict::Next,
        ChannelWrite::FlushFailed(kind) => {
            if *kind == IoErrorKind::WouldBlock {
                WriteVerdict::Next
            } else {
                WriteVerdict::Fail
            }
        },
        ChannelWrite::WriteFailed { kind, message } => {
            if *kind == IoErrorKind::WouldBlock {
                WriteVerdict::Later
            } else if *kind == IoErrorKind::BrokenPipe || *kind == IoErrorKind::ConnectionReset
                || text_contains(message.as_str(), "closed") {
                WriteVerdict::Shutdown
            } else {
                WriteVerdict::Fail
            }
        },
    }
}

/// The verdict once a write of a chunk has put out `written` of its
/// `len` bytes: a write that went well but left bytes behind waits for the
/// next round like a write that would block.
pub open spec fn settled_verdict(outcome: ChannelWrite, written: int, len: int) -> WriteVerdict {
    let v = write_verdict(outcome);
    if v == WriteVerdict::Later || (v == WriteVerdict::Next && written < len) {
        WriteVerdict::Later
    } else {
        v
    }
}

/// Input bytes taken from the client queue that the SSH channel has not
/// taken yet. They are offered again, before anything still queued, so
/// input reaches the channel whole and in order.
pub struct InputBacklog {
    pub pending: Option<Vec<u8>>,
}

impl InputBacklog {
    /// A backlog holding nothing.
    pub fn new() -> (r: Self)
        ensures
            r.pending is None,
    {
        InputBacklog { pending: None }
    }

    /// The bytes held back, to be written before the next queued chunk;
    /// `None` where the next queued chunk comes first.
    pub fn take(&mut self) -> (r: Option<Vec<u8>>)
        ensures
            r == old(self).pending,
            final(self).pending is None,
    {
        let r = self.pending.take();
        r
    }

    /// Settles a write of `chunk` that put out its first `written` bytes
    /// with this outcome. Where the round stops for want of room, the bytes
    /// not written are held back; otherwise nothing is.
    pub fn settle(&mut self, chunk: Vec<u8>, written: usize, outcome: &ChannelWrite) -> (r: WriteVerdict)
        requires
            old(self).pending is None,
            written <= chunk@.len(),
        ensures
            r == settled_verdict(*outcome, written as int, chunk@.len() as int),
            r == WriteVerdict::Later ==> (final(self).pending matches Some(rest) && rest@
                == chunk@.subrange(written as int, chunk@.len() as int)),
            r != WriteVerdict::Later ==> final(self).pending is None,
    {
        let v = judge_write(outcome);
        let later = match v {
            WriteVerdict::Later => true,
            WriteVerdict::Next => written < chunk.len(),
            _ => false,
        };
        if later {
            self.pending = Some(tail_of(&chunk, written));
            WriteVerdict::Later
        } else {
            v
        }
    }
}

/// The bytes of `b` from index `start` on.
fn tail_of(b: &Vec<u8>, start: usize) -> (r: Vec<u8>)
    requires
        start <= b@.len(),
    ensures
        r@ == b@.subrange(start as int, b@.len() as int),
{
    let mut out: Vec<u8> = Vec::new();
    let mut i: usize = start;
    while i < b.len()
        invariant
            start <= i <= b@.len(),
            out@ == b@.subrange(start as int, i as int),
        decreases b@.len() - i,
    {
        out.push(b[i]);
        i = i + 1;
        proof {
            assert(b@.subrange(start as int, i as int) =~= b@.subrange(start as int, i - 1).push(b@[i - 1]));
        }
    }
    out
}

/// Input is neither lost nor reordered: the bytes a settled write put out,
/// followed by the bytes it held back, are the chunk it was given.
pub proof fn lemma_backlog_keeps_bytes(chunk: Seq<u8>, written: int, rest: Seq<u8>)
    requires
        0 <= written <= chunk.len(),
        rest == chunk.subrange(written, chunk.len() as int),
    ensures
        chunk.subrange(0, written) + rest == chunk,
{
    assert(chunk.subrange(0, written) + rest =~= chunk);
}

/// When the SSH thread last sent a keepalive, and how often it must.
pub struct KeepaliveClock {
    pub interval_ms: u64,
    pub last_sent_ms: u64,
}

impl KeepaliveClock {
    /// A clock that counts from `now`.
    pub fn new(interval_ms: u64, now: u64) -> (r: Self)
        ensures
            r.interval_ms == interval_ms,
            r.last_sent_ms == now,
    {
        KeepaliveClock { interval_ms, last_sent_ms: now }
    }

    /// A keepalive is due once `interval_ms` have passed since the last.
    pub fn due(&self, now: u64) -> (r: bool)
        ensures
            r == (now >= self.last_sent_ms && now - self.last_sent_ms >= self.interval_ms),
    {
        now >= self.last_sent_ms && now - self.last_sent_ms >= self.interval_ms
    }

    /// Records a keepalive sent at `now`.
    pub fn sent(&mut self, now: u64)
        ensures
            final(self).interval_ms == old(self).interval_ms,
            final(self).last_sent_ms == now,
    {
        self.last_sent_ms = now;
    }
}

} // verus!
