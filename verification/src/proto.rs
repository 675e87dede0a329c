//! Messages and framing of the exec protocol.
//!
//! One unix stream connection per exec. A frame is a `u32` big-endian length,
//! then that many bytes of one encoded message: a pair of a discriminant and a
//! payload.

use vstd::prelude::*;

use crate::error::{IoFailure, IoKind};
use crate::text;
use crate::text::{copied, decimal_text};

pub mod error_kind;

verus! {

/// Maximum size of a single frame's body. Both ends reject larger frames as a
/// protocol error.
pub const MAX_FRAME_LEN: u32 = 1_048_576;

/// Stdout and stderr chunks are cut to at most this many bytes so one stream
/// cannot starve the other behind a giant frame.
pub const MAX_CHUNK_LEN: usize = 65_536;

/// Messages sent from host to guest.
#[derive(Debug)]
pub enum HostMessage {
    /// Exactly one, first frame on the connection.
    ExecRequest {
        /// The first is the program; no shell is implied.
        argv: Vec<String>,
        env: Vec<(String, String)>,
        cwd: Option<String>,
        /// Whether `Stdin` frames will follow.
        stdin: bool,
        /// Allocate a pty instead of pipes (not supported).
        tty: bool,
        /// Deadline that the guest enforces, in milliseconds.
        timeout_ms: Option<u64>,
    },
    /// Zero or more, only if `stdin` was set. Empty `data` means end of input.
    Stdin { data: Vec<u8> },
}

/// Messages sent from guest to host.
#[derive(Debug)]
pub enum GuestMessage {
    /// The process was spawned.
    Started { pid: u32 },
    /// A chunk of stdout, at most `MAX_CHUNK_LEN` bytes.
    Stdout { data: Vec<u8> },
    /// A chunk of stderr, at most `MAX_CHUNK_LEN` bytes.
    Stderr { data: Vec<u8> },
    /// Last message: normal completion. Exactly one of `code` and `signal`.
    Exit { code: Option<i32>, signal: Option<i32> },
    /// Last message: the exec itself failed.
    Error { kind: String, message: String },
}

impl GuestMessage {
    /// No message follows this one.
    pub open spec fn terminal(self) -> bool {
        self is Exit || self is Error
    }

    /// This reports the failure `kind` with `message`.
    pub open spec fn is_error(self, kind: Seq<char>, message: Seq<char>) -> bool {
        self matches GuestMessage::Error { kind: k, message: m } && k@ == kind && m@ == message
    }
}

// --- discriminants -----------------------------------------------------------

/// What a message from the host is.
#[derive(Debug, Clone, Copy, PartialEq, Eq, Structural)]
pub enum HostKind {
    ExecRequest,
    Stdin,
}

/// What a message from the guest is.
#[derive(Debug, Clone, Copy, PartialEq, Eq, Structural)]
pub enum GuestKind {
    Started,
    Stdout,
    Stderr,
    Exit,
    Error,
}

/// What is said of a discriminant that stands for no message.
pub open spec fn unknown_message(d: u8) -> Seq<char> {
    "unknown message discriminant "@ + text::decimal(d as nat)
}

fn refuse_discriminant(d: u8) -> (r: IoFailure)
    ensures
        fails(r, IoKind::InvalidData, unknown_message(d)),
        r.message@ == "unknown message discriminant "@ + text::decimal(d as nat),
{
    let mut m: String = copied("unknown message discriminant ");
    m.append(decimal_text(d as u64).as_str());
    invalid_data(m)
}

impl HostKind {
    /// The number that stands for such a message on the wire.
    pub open spec fn number(self) -> u8 {
        match self {
            HostKind::ExecRequest => 0,
            HostKind::Stdin => 1,
        }
    }

    /// The number that stands for such a message on the wire.
    pub fn discriminant(self) -> (r: u8)
        ensures
            r == self.number(),
            self == HostKind::ExecRequest ==> r == 0,
            self == HostKind::Stdin ==> r == 1,
    {
        match self {
            HostKind::ExecRequest => 0,
            HostKind::Stdin => 1,
        }
    }

    /// What a number on the wire stands for. An unknown one is refused, not
    /// skipped: both ends belong together.
    pub fn from_discriminant(d: u8) -> (r: Result<HostKind, IoFailure>)
        ensures
            match r {
                Ok(k) => k.number() == d,
                Err(f) => (forall|k: HostKind| #[trigger] k.number() != d) && fails(
                    f,
                    IoKind::InvalidData,
                    unknown_message(d),
                ),
            },
    {
        if d == 0 {
            Ok(HostKind::ExecRequest)
        } else if d == 1 {
            Ok(HostKind::Stdin)
        } else {
            Err(refuse_discriminant(d))
        }
    }
}

impl GuestKind {
    /// The number that stands for such a message on the wire.
    pub open spec fn number(self) -> u8 {
        match self {
            GuestKind::Started => 0,
            GuestKind::Stdout => 1,
            GuestKind::Stderr => 2,
            GuestKind::Exit => 3,
            GuestKind::Error => 4,
        }
    }

    /// The number that stands for such a message on the wire.
    pub fn discriminant(self) -> (r: u8)
        ensures
            r == self.number(),
            self == GuestKind::Started ==> r == 0,
            self == GuestKind::Stdout ==> r == 1,
            self == GuestKind::Stderr ==> r == 2,
            self == GuestKind::Exit ==> r == 3,
            self == GuestKind::Error ==> r == 4,
    {
        match self {
            GuestKind::Started => 0,
            GuestKind::Stdout => 1,
            GuestKind::Stderr => 2,
            GuestKind::Exit => 3,
            GuestKind::Error => 4,
        }
    }

    /// What a number on the wire stands for. An unknown one is refused.
    pub fn from_discriminant(d: u8) -> (r: Result<GuestKind, IoFailure>)
        ensures
            match r {
                Ok(k) => k.number() == d,
                Err(f) => (forall|k: GuestKind| #[trigger] k.number() != d) && fails(
                    f,
                    IoKind::InvalidData,
                    unknown_message(d),
                ),
            },
    {
        if d == 0 {
            Ok(GuestKind::Started)
        } else if d == 1 {
            Ok(GuestKind::Stdout)
        } else if d == 2 {
            Ok(GuestKind::Stderr)
        } else if d == 3 {
            Ok(GuestKind::Exit)
        } else if d == 4 {
            Ok(GuestKind::Error)
        } else {
            Err(refuse_discriminant(d))
        }
    }
}

// --- framing -----------------------------------------------------------------

/// A length as four bytes, most significant first.
pub open spec fn be32(n: int) -> Seq<u8> {
    seq![
        (n / 0x100_0000 % 256) as u8,
        (n / 0x1_0000 % 256) as u8,
        (n / 0x100 % 256) as u8,
        (n % 256) as u8,
    ]
}

/// The length that four bytes stand for.
pub open spec fn of_be32(b: Seq<u8>) -> int {
    b[0] * 0x100_0000 + b[1] * 0x1_0000 + b[2] * 0x100 + b[3]
}

/// The frame around `body`.
pub open spec fn frame(body: Seq<u8>) -> Seq<u8> {
    be32(body.len() as int) + body
}

/// What is said of a frame that announces `len` bytes, too many.
pub open spec fn too_long(len: int) -> Seq<char> {
    "frame of "@ + text::decimal(len as nat) + " bytes exceeds MAX_FRAME_LEN"@
}

/// What is said of bytes that end inside a frame.
pub const CUT_SHORT: &'static str = "failed to fill whole buffer";

/// The outcome of reading a frame.
pub enum Frame {
    /// No frame follows: the bytes end here.
    End,
    /// The frame's body, and where the next frame starts.
    Body(Vec<u8>, usize),
}

/// This failure says `message`, and is of that class.
pub open spec fn fails(f: IoFailure, kind: IoKind, message: Seq<char>) -> bool {
    f.kind == kind && f.message@ == message
}

/// A failure is one of a kind, with a message.
pub proof fn law_failure_is_its_parts(f: IoFailure, kind: IoKind, message: Seq<char>)
    ensures
        fails(f, kind, message) <==> f.kind == kind && f.message@ == message,
{
}

fn invalid_data(message: String) -> (r: IoFailure)
    ensures
        fails(r, IoKind::InvalidData, message@),
{
    IoFailure { kind: IoKind::InvalidData, message }
}

/// Appends a frame around `body`; a body over the limit is refused.
pub fn write_frame(out: &mut Vec<u8>, body: &Vec<u8>) -> (r: Result<(), IoFailure>)
    ensures
        match r {
            Ok(()) => body@.len() <= 1_048_576 && final(out)@ == old(out)@ + frame(body@),
            Err(f) => body@.len() > 1_048_576 && final(out)@ == old(out)@ && fails(
                f,
                IoKind::InvalidData,
                "frame too large"@,
            ),
        },
{
    if body.len() > MAX_FRAME_LEN as usize {
        return Err(invalid_data(copied("frame too large")));
    }
    let n: u32 = body.len() as u32;
    out.push((n / 0x100_0000 % 256) as u8);
    out.push((n / 0x1_0000 % 256) as u8);
    out.push((n / 0x100 % 256) as u8);
    out.push((n % 256) as u8);
    out.extend_from_slice(body.as_slice());
    assert(out@ =~= old(out)@ + frame(body@));
    Ok(())
}

/// The length that a frame's first four bytes announce; one over the limit is
/// refused.
pub fn frame_len(b0: u8, b1: u8, b2: u8, b3: u8) -> (r: Result<u32, IoFailure>)
    ensures
        match r {
            Ok(n) => n == of_be32(seq![b0, b1, b2, b3]) && n == b0 * 0x100_0000 + b1 * 0x1_0000 + b2
                * 0x100 + b3 && n <= 1_048_576,
            Err(f) => of_be32(seq![b0, b1, b2, b3]) > 1_048_576 && fails(
                f,
                IoKind::InvalidData,
                too_long(of_be32(seq![b0, b1, b2, b3])),
            ),
        },
        r is Err <==> b0 * 0x100_0000 + b1 * 0x1_0000 + b2 * 0x100 + b3 > 1_048_576,
        r matches Err(f) ==> f.message@ == "frame of "@ + text::decimal(
            (b0 * 0x100_0000 + b1 * 0x1_0000 + b2 * 0x100 + b3) as nat,
        ) + " bytes exceeds MAX_FRAME_LEN"@,
{
    let n: u32 = b0 as u32 * 0x100_0000 + b1 as u32 * 0x1_0000 + b2 as u32 * 0x100 + b3 as u32;
    if n > MAX_FRAME_LEN {
        let mut m: String = copied("frame of ");
        m.append(decimal_text(n as u64).as_str());
        m.append(" bytes exceeds MAX_FRAME_LEN");
        return Err(invalid_data(m));
    }
    Ok(n)
}

/// The same at the host, where the guest is to blame.
pub fn guest_frame_len(b0: u8, b1: u8, b2: u8, b3: u8) -> (r: Result<u32, IoFailure>)
    ensures
        match r {
            Ok(n) => n == of_be32(seq![b0, b1, b2, b3]) && n == b0 * 0x100_0000 + b1 * 0x1_0000 + b2
                * 0x100 + b3 && n <= 1_048_576,
            Err(f) => of_be32(seq![b0, b1, b2, b3]) > 1_048_576 && fails(
                f,
                IoKind::InvalidData,
                "oversized frame from guest"@,
            ),
        },
        r is Err <==> b0 * 0x100_0000 + b1 * 0x1_0000 + b2 * 0x100 + b3 > 1_048_576,
{
    match frame_len(b0, b1, b2, b3) {
        Ok(n) => Ok(n),
        Err(_) => Err(invalid_data(copied("oversized frame from guest"))),
    }
}

/// How many bytes of a frame's `total` are missing where `have` are there.
pub open spec fn lacking(total: int, have: int) -> int {
    if have < total {
        total - have
    } else {
        0
    }
}

/// How many bytes to read next, of the frame that `bytes` begin with: those of
/// its length first, then those of its body. A length over the limit is
/// refused as soon as it is there.
pub fn missing(bytes: &Vec<u8>) -> (r: Result<usize, IoFailure>)
    ensures
        ({
            let n = of_be32(bytes@.take(4));
            if bytes@.len() < 4 {
                r == Ok::<usize, IoFailure>((4 - bytes@.len()) as usize)
            } else if n > MAX_FRAME_LEN {
                r matches Err(f) && fails(f, IoKind::InvalidData, too_long(n))
            } else {
                r matches Ok(m) && m == lacking(4 + n, bytes@.len() as int)
            }
        }),
{
    if bytes.len() < 4 {
        return Ok(4 - bytes.len());
    }
    assert(bytes@.take(4) =~= seq![bytes@[0], bytes@[1], bytes@[2], bytes@[3]]);
    match frame_len(bytes[0], bytes[1], bytes[2], bytes[3]) {
        Ok(n) => Ok(remainder(n, bytes.len())),
        Err(f) => Err(f),
    }
}

/// The same at the host, where the guest is to blame.
pub fn guest_missing(bytes: &Vec<u8>) -> (r: Result<usize, IoFailure>)
    ensures
        ({
            let n = of_be32(bytes@.take(4));
            if bytes@.len() < 4 {
                r == Ok::<usize, IoFailure>((4 - bytes@.len()) as usize)
            } else if n > MAX_FRAME_LEN {
                r matches Err(f) && fails(f, IoKind::InvalidData, "oversized frame from guest"@)
            } else {
                r matches Ok(m) && m == lacking(4 + n, bytes@.len() as int)
            }
        }),
{
    if bytes.len() < 4 {
        return Ok(4 - bytes.len());
    }
    assert(bytes@.take(4) =~= seq![bytes@[0], bytes@[1], bytes@[2], bytes@[3]]);
    match guest_frame_len(bytes[0], bytes[1], bytes[2], bytes[3]) {
        Ok(n) => Ok(remainder(n, bytes.len())),
        Err(f) => Err(f),
    }
}

fn remainder(n: u32, have: usize) -> (r: usize)
    requires
        n <= MAX_FRAME_LEN,
        have >= 4,
    ensures
        r == lacking(4 + n, have as int),
{
    let body: usize = have - 4;
    if body < n as usize {
        n as usize - body
    } else {
        0
    }
}

/// Reads the frame that starts at `pos`. Bytes that end inside a frame, in its
/// length or its body, are no frame.
pub fn read_frame(bytes: &Vec<u8>, pos: usize) -> (r: Result<Frame, IoFailure>)
    requires
        pos <= bytes@.len(),
    ensures
        ({
            let rest = bytes@.skip(pos as int);
            let n = of_be32(rest.take(4));
            if rest.len() == 0 {
                r == Ok::<Frame, IoFailure>(Frame::End)
            } else if rest.len() < 4 {
                r matches Err(f) && fails(f, IoKind::Other, CUT_SHORT@)
            } else if n > MAX_FRAME_LEN {
                r matches Err(f) && fails(f, IoKind::InvalidData, too_long(n))
            } else if rest.len() < 4 + n {
                r matches Err(f) && fails(f, IoKind::Other, CUT_SHORT@)
            } else {
                r matches Ok(Frame::Body(body, next)) && body@ == rest.subrange(4, 4 + n) && next
                    == pos + 4 + n
            }
        }),
{
    let ghost rest = bytes@.skip(pos as int);
    if bytes.len() == pos {
        return Ok(Frame::End);
    }
    if bytes.len() - pos < 4 {
        return Err(IoFailure::other(CUT_SHORT));
    }
    assert(rest.take(4) =~= seq![
        bytes@[pos as int],
        bytes@[pos + 1],
        bytes@[pos + 2],
        bytes@[pos + 3],
    ]);
    let n: usize = match frame_len(bytes[pos], bytes[pos + 1], bytes[pos + 2], bytes[pos + 3]) {
        Ok(n) => n as usize,
        Err(f) => {
            return Err(f);
        },
    };
    if bytes.len() - pos - 4 < n {
        return Err(IoFailure::other(CUT_SHORT));
    }
    let mut body: Vec<u8> = Vec::new();
    let start: usize = pos + 4;
    let mut i: usize = 0;
    while i < n
        invariant
            i <= n,
            start == pos + 4,
            start + n <= bytes.len(),
            rest == bytes@.skip(pos as int),
            body@ == rest.subrange(4, 4 + i),
        decreases n - i,
    {
        body.push(bytes[start + i]);
        assert(body@ =~= rest.subrange(4, 4 + i + 1));
        i += 1;
    }
    Ok(Frame::Body(body, start + n))
}

// --- laws --------------------------------------------------------------------

/// A discriminant stands for one kind of message only, in either direction.
pub proof fn law_discriminants_differ(a: HostKind, b: HostKind, c: GuestKind, d: GuestKind)
    ensures
        a.number() == b.number() <==> a == b,
        c.number() == d.number() <==> c == d,
{
}

/// A length survives its four bytes.
pub proof fn law_length_roundtrip(n: int)
    requires
        0 <= n <= u32::MAX,
    ensures
        of_be32(be32(n)) == n,
        be32(n).len() == 4,
{
    assert(n == n / 0x100_0000 % 256 * 0x100_0000 + n / 0x1_0000 % 256 * 0x1_0000 + n / 0x100 % 256
        * 0x100 + n % 256) by {
        assert(n / 0x100_0000 % 256 == n / 0x100_0000);
        assert(n / 0x1_0000 == n / 0x100_0000 * 256 + n / 0x1_0000 % 256);
        assert(n / 0x100 == n / 0x1_0000 * 256 + n / 0x100 % 256);
        assert(n == n / 0x100 * 256 + n % 256);
    }
}

/// A frame is four bytes that give the length of the body, the most significant
/// first, and the body right behind them.
pub proof fn law_frames_start_with_their_length(body: Seq<u8>)
    requires
        body.len() <= 1_048_576,
    ensures
        frame(body).len() == 4 + body.len(),
        frame(body).skip(4) == body,
        frame(body)[0] * 16_777_216 + frame(body)[1] * 65_536 + frame(body)[2] * 256 + frame(body)[3]
            == body.len(),
{
    law_length_roundtrip(body.len() as int);
    assert(frame(body).skip(4) =~= body);
    assert(frame(body).take(4) =~= be32(body.len() as int));
}

/// The bytes that a frame lacks and those that are there make up the frame; none
/// are asked for beyond it.
pub proof fn law_missing_bytes_complete_the_frame(total: int, have: int)
    requires
        0 <= have,
        0 <= total,
    ensures
        have <= total ==> have + lacking(total, have) == total,
        have >= total ==> lacking(total, have) == 0,
{
}

/// A frame that was written is read back whole, whatever follows it, and
/// reading goes on right behind it.
pub proof fn law_frame_roundtrip(body: Seq<u8>, after: Seq<u8>)
    requires
        body.len() <= MAX_FRAME_LEN,
    ensures
        ({
            let bytes = frame(body) + after;
            let n = of_be32(bytes.take(4));
            &&& n == body.len()
            &&& bytes.subrange(4, 4 + n) == body
            &&& bytes.skip(4 + n) == after
        }),
{
    law_length_roundtrip(body.len() as int);
    let bytes = frame(body) + after;
    assert(bytes.take(4) =~= be32(body.len() as int));
    assert(bytes.subrange(4, 4 + body.len() as int) =~= body);
    assert(bytes.skip(4 + body.len() as int) =~= after);
}

} // verus!
