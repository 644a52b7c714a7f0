//! Length-prefixed framing: `Content-Length: <N>\r\n\r\n` followed by exactly
//! `N` body bytes. Headers are read line by line up to a blank line; a
//! declared length above the configured bound is refused before any body
//! byte is read.

use vstd::prelude::*;

use crate::text::{
    all_digits, copy_range, decimal, digits_value, is_digit, lemma_decimal, parse_digits,
    push_decimal,
};

verus! {

/// The reference bound on a message body: 100 MiB.
pub const MAX_MESSAGE_SIZE: usize = 100 * 1024 * 1024;

/// `Content-Length: `
pub open spec fn length_header_name() -> Seq<u8> {
    seq![
        0x43u8, 0x6f, 0x6e, 0x74, 0x65, 0x6e, 0x74, 0x2d, 0x4c, 0x65, 0x6e, 0x67, 0x74, 0x68, 0x3a,
        0x20,
    ]
}

/// `\r\n`
pub open spec fn crlf() -> Seq<u8> {
    seq![0x0du8, 0x0a]
}

/// The header that announces a body of `n` bytes.
pub open spec fn frame_header(n: nat) -> Seq<u8> {
    length_header_name() + decimal(n) + crlf() + crlf()
}

/// A body with its header in front.
pub open spec fn frame_bytes(body: Seq<u8>) -> Seq<u8> {
    frame_header(body.len()) + body
}

/// Frames a message body.
pub fn encode_frame(body: &[u8]) -> (r: Vec<u8>)
    ensures
        r@ == frame_bytes(body@),
{
    let mut out: Vec<u8> = vec![
        0x43, 0x6f, 0x6e, 0x74, 0x65, 0x6e, 0x74, 0x2d, 0x4c, 0x65, 0x6e, 0x67, 0x74, 0x68, 0x3a,
        0x20,
    ];
    assert(out@ =~= length_header_name());
    push_decimal(&mut out, body.len() as u64);
    out.push(0x0d);
    out.push(0x0a);
    out.push(0x0d);
    out.push(0x0a);
    assert(out@ =~= frame_header(body@.len()));
    let ghost header = out@;
    let mut i: usize = 0;
    while i < body.len()
        invariant
            i <= body@.len(),
            out@ == header + body@.subrange(0, i as int),
        decreases body@.len() - i,
    {
        out.push(body[i]);
        i += 1;
        assert(out@ =~= header + body@.subrange(0, i as int));
    }
    assert(body@.subrange(0, body@.len() as int) =~= body@);
    out
}

/// The whitespace that trimming a header line removes: space, and tab
/// through carriage return.
pub open spec fn is_space(b: u8) -> bool {
    b == 0x20 || (0x09 <= b && b <= 0x0d)
}

pub open spec fn trim_start(s: Seq<u8>) -> Seq<u8>
    decreases s.len(),
{
    if s.len() > 0 && is_space(s[0]) {
        trim_start(s.drop_first())
    } else {
        s
    }
}

pub open spec fn trim_end(s: Seq<u8>) -> Seq<u8>
    decreases s.len(),
{
    if s.len() > 0 && is_space(s.last()) {
        trim_end(s.drop_last())
    } else {
        s
    }
}

/// A header line without surrounding whitespace (its line break included).
pub open spec fn trimmed(s: Seq<u8>) -> Seq<u8> {
    trim_end(trim_start(s))
}

/// The length that a header value states: decimal digits with an optional
/// leading `+`, fitting in a `u64`.
pub open spec fn parse_length(s: Seq<u8>) -> Option<u64> {
    let d = if s.len() > 0 && s[0] == 0x2b {
        s.drop_first()
    } else {
        s
    };
    if d.len() > 0 && all_digits(d) && digits_value(d) <= u64::MAX {
        Some(digits_value(d) as u64)
    } else {
        None
    }
}

/// Whether a trimmed line is a `Content-Length: ` header.
pub open spec fn is_length_line(t: Seq<u8>) -> bool {
    t.len() >= 16 && t.subrange(0, 16) == length_header_name()
}

/// Why a frame cannot be read.
#[derive(Debug, Clone, Copy, PartialEq, Eq)]
pub enum FrameError {
    /// A `Content-Length` value is not a decimal number.
    InvalidContentLength,
    /// The headers ended without a `Content-Length`.
    MissingContentLength,
    /// The declared length is above the bound.
    TooLarge(u64),
    /// The body is not JSON.
    InvalidJson,
}

/// What the reader does after a header line.
#[derive(Debug, Clone, Copy, PartialEq, Eq)]
pub enum HeaderStep {
    /// Read the next header line.
    Continue,
    /// The headers are over: read a body of this many bytes.
    Body(usize),
}

/// What a header line leads to, given the length declared so far.
pub open spec fn header_outcome(declared: Option<u64>, line: Seq<u8>, max: usize) -> Result<
    HeaderStep,
    FrameError,
> {
    let t = trimmed(line);
    if t.len() == 0 {
        match declared {
            None => Err(FrameError::MissingContentLength),
            Some(n) => if n > max {
                Err(FrameError::TooLarge(n))
            } else {
                Ok(HeaderStep::Body(n as usize))
            },
        }
    } else if is_length_line(t) {
        match parse_length(t.subrange(16, t.len() as int)) {
            Some(_) => Ok(HeaderStep::Continue),
            None => Err(FrameError::InvalidContentLength),
        }
    } else {
        Ok(HeaderStep::Continue)
    }
}

/// The declared length after a header line: a later `Content-Length`
/// replaces an earlier one, and the blank line starts the next message.
pub open spec fn declared_after(declared: Option<u64>, line: Seq<u8>) -> Option<u64> {
    let t = trimmed(line);
    if t.len() == 0 {
        None
    } else if is_length_line(t) {
        match parse_length(t.subrange(16, t.len() as int)) {
            Some(n) => Some(n),
            None => declared,
        }
    } else {
        declared
    }
}

fn is_space_byte(b: u8) -> (r: bool)
    ensures
        r == is_space(b),
{
    b == 0x20 || (0x09 <= b && b <= 0x0d)
}

/// The bounds of `b` without surrounding whitespace.
fn trim_bounds(b: &[u8]) -> (r: (usize, usize))
    ensures
        r.0 <= r.1 <= b@.len(),
        b@.subrange(r.0 as int, r.1 as int) == trimmed(b@),
{
    let n = b.len();
    let mut s: usize = 0;
    assert(b@.subrange(0, n as int) =~= b@);
    while s < n && is_space_byte(b[s])
        invariant
            n == b@.len(),
            s <= n,
            trim_start(b@) == trim_start(b@.subrange(s as int, n as int)),
        decreases n - s,
    {
        assert(b@.subrange(s as int, n as int).drop_first() =~= b@.subrange(s + 1, n as int));
        s += 1;
    }
    let ghost front = b@.subrange(s as int, n as int);
    assert(trim_start(b@) == front);
    let mut e: usize = n;
    while e > s && is_space_byte(b[e - 1])
        invariant
            n == b@.len(),
            s <= e <= n,
            front == b@.subrange(s as int, n as int),
            trim_end(front) == trim_end(b@.subrange(s as int, e as int)),
        decreases e - s,
    {
        assert(b@.subrange(s as int, e as int).drop_last() =~= b@.subrange(s as int, e - 1));
        e -= 1;
    }
    (s, e)
}

/// Whether `b[from..]` starts with `Content-Length: `.
fn has_length_name(b: &[u8], from: usize, to: usize) -> (r: bool)
    requires
        from <= to <= b@.len(),
    ensures
        r == is_length_line(b@.subrange(from as int, to as int)),
{
    let ghost t = b@.subrange(from as int, to as int);
    if to - from < 16 {
        return false;
    }
    let name: Vec<u8> = vec![
        0x43, 0x6f, 0x6e, 0x74, 0x65, 0x6e, 0x74, 0x2d, 0x4c, 0x65, 0x6e, 0x67, 0x74, 0x68, 0x3a,
        0x20,
    ];
    assert(name@ =~= length_header_name());
    let mut i: usize = 0;
    while i < 16
        invariant
            from + 16 <= to <= b@.len(),
            t == b@.subrange(from as int, to as int),
            name@ == length_header_name(),
            i <= 16,
            forall|j: int| 0 <= j < i ==> t[j] == name@[j],
        decreases 16 - i,
    {
        if b[from + i] != name[i] {
            assert(t.subrange(0, 16)[i as int] == t[i as int]);
            return false;
        }
        i += 1;
    }
    assert(t.subrange(0, 16) =~= length_header_name());
    true
}

/// The length stated by `b[from..to]`.
fn parse_length_at(b: &[u8], from: usize, to: usize) -> (r: Option<u64>)
    requires
        from <= to <= b@.len(),
    ensures
        r == parse_length(b@.subrange(from as int, to as int)),
{
    let ghost s = b@.subrange(from as int, to as int);
    if from < to && b[from] == 0x2b {
        assert(s.drop_first() =~= b@.subrange(from + 1, to as int));
        parse_digits(b, from + 1, to)
    } else {
        parse_digits(b, from, to)
    }
}

/// Reads the header lines of one message after another.
pub struct HeaderReader {
    /// The length declared by the headers read so far for this message.
    pub declared: Option<u64>,
}

impl HeaderReader {
    /// A reader at the start of a message.
    pub fn new() -> (r: HeaderReader)
        ensures
            r.declared is None,
    {
        HeaderReader { declared: None }
    }

    /// Takes one header line (with or without its line break) and says
    /// whether to read another line or a body of the declared length.
    /// Errors on a malformed `Content-Length`, on headers that end without
    /// one, and on a declared length above `max`.
    pub fn push_line(&mut self, line: &[u8], max: usize) -> (r: Result<HeaderStep, FrameError>)
        ensures
            r == header_outcome(old(self).declared, line@, max),
            final(self).declared == declared_after(old(self).declared, line@),
    {
        let (s, e) = trim_bounds(line);
        let ghost t = line@.subrange(s as int, e as int);
        if s == e {
            let declared = self.declared;
            self.declared = None;
            match declared {
                None => Err(FrameError::MissingContentLength),
                Some(n) => if n > max as u64 {
                    Err(FrameError::TooLarge(n))
                } else {
                    Ok(HeaderStep::Body(n as usize))
                },
            }
        } else if has_length_name(line, s, e) {
            assert(t.subrange(16, t.len() as int) =~= line@.subrange(s + 16, e as int));
            match parse_length_at(line, s + 16, e) {
                Some(n) => {
                    self.declared = Some(n);
                    Ok(HeaderStep::Continue)
                },
                None => Err(FrameError::InvalidContentLength),
            }
        } else {
            Ok(HeaderStep::Continue)
        }
    }
}

/// The position of the first line break at or after `pos`.
pub open spec fn line_break_from(input: Seq<u8>, pos: int) -> Option<int>
    decreases input.len() - pos,
{
    if pos < 0 || pos >= input.len() {
        None
    } else if input[pos] == 0x0a {
        Some(pos)
    } else {
        line_break_from(input, pos + 1)
    }
}

/// Reads header lines from `pos`: where the body starts and how long it
/// is, `None` where the input ends inside the headers.
pub open spec fn scan_headers(input: Seq<u8>, pos: int, declared: Option<u64>, max: usize) -> Result<
    Option<(int, usize)>,
    FrameError,
>
    decreases input.len() - pos,
{
    match line_break_from(input, pos) {
        None => Ok(None),
        Some(j) => if pos <= j < input.len() {
            let line = input.subrange(pos, j + 1);
            match header_outcome(declared, line, max) {
                Err(e) => Err(e),
                Ok(HeaderStep::Body(n)) => Ok(Some((j + 1, n))),
                Ok(HeaderStep::Continue) => scan_headers(
                    input,
                    j + 1,
                    declared_after(declared, line),
                    max,
                ),
            }
        } else {
            Ok(None)
        },
    }
}

/// The frame at the start of `input`: its body and the number of bytes it
/// takes up; `None` where the input ends before the frame does.
pub open spec fn decoded_frame(input: Seq<u8>, max: usize) -> Result<
    Option<(Seq<u8>, int)>,
    FrameError,
> {
    match scan_headers(input, 0, None, max) {
        Err(e) => Err(e),
        Ok(None) => Ok(None),
        Ok(Some((start, n))) => if start + n <= input.len() {
            Ok(Some((input.subrange(start, start + n), start + n)))
        } else {
            Ok(None)
        },
    }
}

/// A frame read from a buffer.
pub struct Frame {
    pub body: Vec<u8>,
    /// How many bytes of the buffer the frame took up.
    pub consumed: usize,
}

/// Reads the frame at the start of `input`; `Ok(None)` where the input
/// ends before the frame does.
pub fn decode_frame(input: &[u8], max: usize) -> (r: Result<Option<Frame>, FrameError>)
    ensures
        match r {
            Ok(Some(f)) => decoded_frame(input@, max) == Ok::<Option<(Seq<u8>, int)>, FrameError>(
                Some((f.body@, f.consumed as int)),
            ),
            Ok(None) => decoded_frame(input@, max) == Ok::<Option<(Seq<u8>, int)>, FrameError>(
                None,
            ),
            Err(e) => decoded_frame(input@, max) == Err::<Option<(Seq<u8>, int)>, FrameError>(e),
        },
{
    let mut reader = HeaderReader::new();
    let mut pos: usize = 0;
    loop
        invariant
            pos <= input@.len(),
            scan_headers(input@, 0, None, max) == scan_headers(
                input@,
                pos as int,
                reader.declared,
                max,
            ),
        decreases input@.len() - pos,
    {
        let mut j = pos;
        while j < input.len() && input[j] != 0x0a
            invariant
                pos <= j <= input@.len(),
                line_break_from(input@, pos as int) == line_break_from(input@, j as int),
            decreases input@.len() - j,
        {
            j += 1;
        }
        if j == input.len() {
            return Ok(None);
        }
        let line = &input[pos..j + 1];
        match reader.push_line(line, max) {
            Err(e) => {
                return Err(e);
            },
            Ok(HeaderStep::Body(n)) => {
                let start = j + 1;
                if input.len() - start < n {
                    return Ok(None);
                }
                let body = copy_range(input, start, start + n);
                return Ok(Some(Frame { body, consumed: start + n }));
            },
            Ok(HeaderStep::Continue) => {
                pos = j + 1;
            },
        }
    }
}

proof fn lemma_line_break_at(input: Seq<u8>, pos: int, j: int)
    requires
        0 <= pos <= j < input.len(),
        input[j] == 0x0a,
        forall|i: int| pos <= i < j ==> input[i] != 0x0a,
    ensures
        line_break_from(input, pos) == Some(j),
    decreases j - pos,
{
    if pos < j {
        lemma_line_break_at(input, pos + 1, j);
    }
}

/// How the headers of `frame_header(n) + rest` are read: a body of `n`
/// bytes right after them, or a refusal where `n` is above `max`.
proof fn lemma_header_scan(n: u64, rest: Seq<u8>, max: usize)
    ensures
        scan_headers(frame_header(n as nat) + rest, 0, None, max) == if n > max {
            Err::<Option<(int, usize)>, FrameError>(FrameError::TooLarge(n))
        } else {
            Ok(Some((frame_header(n as nat).len() as int, n as usize)))
        },
{
    let d = decimal(n as nat);
    lemma_decimal(n as nat);
    let name = length_header_name();
    let h = frame_header(n as nat);
    let input = h + rest;
    let k: int = 16 + d.len() as int;
    assert(h =~= name + d + crlf() + crlf());
    assert forall|i: int| 0 <= i < k implies input[i] != 0x0a by {
        if i >= 16 {
            assert(input[i] == d[i - 16]);
            assert(is_digit(d[i - 16]));
        }
    }
    assert(input[k] == 0x0d);
    assert(input[k + 1] == 0x0a);
    lemma_line_break_at(input, 0, k + 1);
    let line1 = input.subrange(0, k + 2);
    assert(line1 =~= name + d + crlf());
    assert(trim_start(line1) == line1);
    assert(line1.drop_last() =~= name + d + seq![0x0du8]);
    assert((name + d + seq![0x0du8]).drop_last() =~= name + d);
    assert((name + d).last() == d.last());
    assert(is_digit(d[d.len() - 1]));
    assert(trim_end(name + d) == name + d);
    assert(line1.last() == 0x0a);
    assert(trim_end(line1) == trim_end(line1.drop_last()));
    assert(line1.drop_last().last() == 0x0d);
    assert(trim_end(line1.drop_last()) == trim_end(name + d));
    assert(trimmed(line1) == name + d);
    assert((name + d).subrange(0, 16) =~= name);
    assert((name + d).subrange(16, k) =~= d);
    assert(is_digit(d[0]));
    assert(parse_length(d) == Some(n));
    assert(declared_after(None, line1) == Some(n));
    assert(input[k + 2] == 0x0d);
    assert(input[k + 3] == 0x0a);
    assert(input[k + 2] != 0x0a);
    lemma_line_break_at(input, k + 2, k + 3);
    let line2 = input.subrange(k + 2, k + 4);
    assert(line2 =~= crlf());
    assert(line2.drop_last() =~= seq![0x0du8]);
    assert(seq![0x0du8].drop_last() =~= Seq::<u8>::empty());
    assert(trim_start(line2) == trim_start(line2.drop_first()));
    assert(line2.drop_first() =~= seq![0x0au8]);
    assert(seq![0x0au8].drop_first() =~= Seq::<u8>::empty());
    assert(trim_start(seq![0x0au8]) == trim_start(Seq::<u8>::empty()));
    assert(trim_start(line2) == Seq::<u8>::empty());
    assert(trim_end(Seq::<u8>::empty()) == Seq::<u8>::empty());
    assert(trimmed(line2).len() == 0);
    assert(scan_headers(input, k + 2, Some(n), max) == if n > max {
        Err::<Option<(int, usize)>, FrameError>(FrameError::TooLarge(n))
    } else {
        Ok(Some((k + 4, n as usize)))
    });
}

/// Framing a body and reading the frame back gives the same body, and the
/// frame takes up exactly its own bytes, whatever follows it.
pub proof fn lemma_frame_round_trip(body: Seq<u8>, rest: Seq<u8>, max: usize)
    requires
        body.len() <= max,
    ensures
        decoded_frame(frame_bytes(body) + rest, max) == Ok::<Option<(Seq<u8>, int)>, FrameError>(
            Some((body, frame_bytes(body).len() as int)),
        ),
{
    let n = body.len() as u64;
    let h = frame_header(body.len());
    lemma_header_scan(n, body + rest, max);
    let input = frame_bytes(body) + rest;
    assert(input =~= h + (body + rest));
    assert(input.subrange(h.len() as int, h.len() + body.len() as int) =~= body);
}

/// A header that declares more than `max` bytes is refused, whatever
/// follows it: the body is never read.
pub proof fn lemma_oversized_refused(n: u64, rest: Seq<u8>, max: usize)
    requires
        n > max,
    ensures
        decoded_frame(frame_header(n as nat) + rest, max) == Err::<
            Option<(Seq<u8>, int)>,
            FrameError,
        >(FrameError::TooLarge(n)),
{
    lemma_header_scan(n, rest, max);
}

/// Bodies framed one after another.
pub open spec fn frames(bodies: Seq<Seq<u8>>) -> Seq<u8>
    decreases bodies.len(),
{
    if bodies.len() == 0 {
        seq![]
    } else {
        frame_bytes(bodies[0]) + frames(bodies.drop_first())
    }
}

/// The bodies of `n` frames read one after another from the start of
/// `input`, each from the bytes the previous one left; `None` where one of
/// them cannot be read.
pub open spec fn decoded_frames(input: Seq<u8>, max: usize, n: nat) -> Option<Seq<Seq<u8>>>
    decreases n,
{
    if n == 0 {
        Some(seq![])
    } else {
        match decoded_frame(input, max) {
            Ok(Some((body, used))) => match decoded_frames(
                input.subrange(used, input.len() as int),
                max,
                (n - 1) as nat,
            ) {
                Some(more) => Some(seq![body] + more),
                None => None,
            },
            _ => None,
        }
    }
}

/// Frames written one after another are read back one after another, each
/// giving exactly its own body and taking nothing of the next frame,
/// whatever follows the last.
pub proof fn lemma_frames_round_trip(bodies: Seq<Seq<u8>>, rest: Seq<u8>, max: usize)
    requires
        forall|i: int| 0 <= i < bodies.len() ==> (#[trigger] bodies[i]).len() <= max,
    ensures
        decoded_frames(frames(bodies) + rest, max, bodies.len()) == Some(bodies),
    decreases bodies.len(),
{
    if bodies.len() > 0 {
        let first = frame_bytes(bodies[0]);
        let tail = frames(bodies.drop_first()) + rest;
        let input = frames(bodies) + rest;
        assert(input =~= first + tail);
        assert(bodies[0].len() <= max);
        lemma_frame_round_trip(bodies[0], tail, max);
        assert(input.subrange(first.len() as int, input.len() as int) =~= tail);
        assert forall|i: int| 0 <= i < bodies.drop_first().len() implies (
        #[trigger] bodies.drop_first()[i]).len() <= max by {
            assert(bodies.drop_first()[i] == bodies[i + 1]);
        }
        lemma_frames_round_trip(bodies.drop_first(), rest, max);
        assert(seq![bodies[0]] + bodies.drop_first() =~= bodies);
    }
}

} // verus!
