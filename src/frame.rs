//! Length-prefixed framing of protocol messages: a header block of lines ended by
//! a blank line, one of which declares the body's byte length, then the body.
use vstd::prelude::*;
use serde_json::Value;
use crate::json::{json_accepts, json_text, json_value_of, parse_json, serialize_json};
use crate::text::{
    all_digits, decimal, digits_value, lemma_decimal_digits, lemma_digits_prefix_le,
    push_decimal, from_utf8_lossy, utf8_lossy,
};

verus! {

/// The header key that declares the body length, matched case-sensitively.
pub open spec fn length_key() -> Seq<u8> {
    seq![
        // "Content-Length:"
        67u8, 111u8, 110u8, 116u8, 101u8, 110u8, 116u8, 45u8, 76u8, 101u8, 110u8, 103u8, 116u8,
        104u8, 58u8,
    ]
}

/// `\r\n\r\n`: the end of the length line followed by the blank line.
pub open spec fn header_end() -> Seq<u8> {
    seq![13u8, 10u8, 13u8, 10u8]
}

/// The bytes that carry `body` on the wire: `Content-Length: <N>\r\n\r\n<body>`.
pub open spec fn frame_bytes(body: Seq<u8>) -> Seq<u8> {
    length_key() + seq![32u8] + decimal(body.len()) + header_end() + body
}

/// ASCII whitespace, as `str::trim` drops it.
pub open spec fn is_ws(b: u8) -> bool {
    b == 32 || (9 <= b && b <= 13)
}

pub open spec fn is_line_break(b: u8) -> bool {
    b == 10 || b == 13
}

/// End of `buf[start..end]` once trailing `\r` and `\n` bytes are dropped.
pub open spec fn trim_breaks_end(buf: Seq<u8>, start: int, end: int) -> int
    decreases end - start,
{
    if end > start && is_line_break(buf[end - 1]) {
        trim_breaks_end(buf, start, end - 1)
    } else {
        end
    }
}

/// Start of `buf[start..end]` once leading whitespace is dropped.
pub open spec fn skip_ws(buf: Seq<u8>, start: int, end: int) -> int
    decreases end - start,
{
    if start < end && is_ws(buf[start]) {
        skip_ws(buf, start + 1, end)
    } else {
        start
    }
}

/// End of `buf[start..end]` once trailing whitespace is dropped.
pub open spec fn trim_ws_end(buf: Seq<u8>, start: int, end: int) -> int
    decreases end - start,
{
    if end > start && is_ws(buf[end - 1]) {
        trim_ws_end(buf, start, end - 1)
    } else {
        end
    }
}

/// What `str::parse::<usize>` accepts: an optional `+`, then one or more digits,
/// spelling a number that fits in `usize`.
pub open spec fn parse_usize(s: Seq<u8>) -> Option<nat> {
    let d = if s.len() > 0 && s[0] == 43 {
        s.drop_first()
    } else {
        s
    };
    if d.len() > 0 && all_digits(d) && digits_value(d) <= usize::MAX {
        Some(digits_value(d))
    } else {
        None
    }
}

/// The line `buf[start..end]` (line breaks trimmed) starts with the length key.
pub open spec fn is_length_line(buf: Seq<u8>, start: int, end: int) -> bool {
    end - start >= length_key().len() && buf.subrange(start, start + length_key().len())
        == length_key()
}

/// The length that a length line declares: the rest of the line, whitespace
/// trimmed, as a number; `None` where it is no number.
pub open spec fn length_value(buf: Seq<u8>, start: int, end: int) -> Option<nat> {
    let vs = skip_ws(buf, start + length_key().len(), end);
    let ve = trim_ws_end(buf, vs, end);
    parse_usize(buf.subrange(vs, ve))
}

/// The outcome of reading the header block.
pub enum HeaderScan {
    /// No blank line yet.
    Incomplete,
    /// The blank line ends at `body_start`; `length` is what the last length line declared.
    Done { length: Option<nat>, body_start: nat },
}

/// Reads the header block from `i` on, the current line having begun at
/// `line_start`, with `length` declared so far. Each line ends at a `\n`; a line
/// that is empty once trailing `\r`/`\n` are dropped ends the block; a line that
/// starts with the length key sets the declared length (to `None` if unparsable).
pub open spec fn scan(buf: Seq<u8>, line_start: int, i: int, length: Option<nat>) -> HeaderScan
    decreases buf.len() - i,
{
    if i < 0 || i >= buf.len() {
        HeaderScan::Incomplete
    } else if buf[i] == 10 {
        let e = trim_breaks_end(buf, line_start, i + 1);
        if e == line_start {
            HeaderScan::Done { length, body_start: (i + 1) as nat }
        } else {
            let next = if is_length_line(buf, line_start, e) {
                length_value(buf, line_start, e)
            } else {
                length
            };
            scan(buf, i + 1, i + 1, next)
        }
    } else {
        scan(buf, line_start, i + 1, length)
    }
}

/// What the front of an input buffer holds.
pub enum FrameScan {
    /// More bytes are needed.
    Pending,
    /// The stream ended before a complete header block: a clean end.
    Closed,
    /// A header block of `consumed` bytes declared no usable length.
    MissingLength { consumed: usize },
    /// The stream ended inside a body.
    Truncated,
    /// A complete frame whose body is `buf[start..start + len]`.
    Body { start: usize, len: usize },
}

/// The first frame of `buf`; `closed` says that no more bytes will come.
pub open spec fn decode(buf: Seq<u8>, closed: bool) -> FrameScan {
    match scan(buf, 0, 0, None) {
        HeaderScan::Incomplete => if closed {
            FrameScan::Closed
        } else {
            FrameScan::Pending
        },
        HeaderScan::Done { length, body_start } => match length {
            None => FrameScan::MissingLength { consumed: body_start as usize },
            Some(n) => if body_start + n <= buf.len() {
                FrameScan::Body { start: body_start as usize, len: n as usize }
            } else if closed {
                FrameScan::Truncated
            } else {
                FrameScan::Pending
            },
        },
    }
}

pub open spec fn opt_nat(o: Option<usize>) -> Option<nat> {
    match o {
        Some(n) => Some(n as nat),
        None => None,
    }
}

fn length_key_bytes() -> (r: Vec<u8>)
    ensures
        r@ == length_key(),
{
    let r = vec![
        // "Content-Length:"
        67u8, 111u8, 110u8, 116u8, 101u8, 110u8, 116u8, 45u8, 76u8, 101u8, 110u8, 103u8, 116u8,
        104u8, 58u8,
    ];
    assert(r@ =~= length_key());
    r
}

fn trim_breaks_end_exec(buf: &Vec<u8>, start: usize, end: usize) -> (r: usize)
    requires
        start <= end <= buf@.len(),
    ensures
        r == trim_breaks_end(buf@, start as int, end as int),
        start <= r <= end,
{
    let mut e = end;
    while e > start && (buf[e - 1] == 10 || buf[e - 1] == 13)
        invariant
            start <= e <= end <= buf@.len(),
            trim_breaks_end(buf@, start as int, e as int) == trim_breaks_end(
                buf@,
                start as int,
                end as int,
            ),
        decreases e,
    {
        e = e - 1;
    }
    e
}

fn skip_ws_exec(buf: &Vec<u8>, start: usize, end: usize) -> (r: usize)
    requires
        start <= end <= buf@.len(),
    ensures
        r == skip_ws(buf@, start as int, end as int),
        start <= r <= end,
{
    let mut s = start;
    while s < end && (buf[s] == 32 || (9 <= buf[s] && buf[s] <= 13))
        invariant
            start <= s <= end <= buf@.len(),
            skip_ws(buf@, s as int, end as int) == skip_ws(buf@, start as int, end as int),
        decreases end - s,
    {
        s = s + 1;
    }
    s
}

fn trim_ws_end_exec(buf: &Vec<u8>, start: usize, end: usize) -> (r: usize)
    requires
        start <= end <= buf@.len(),
    ensures
        r == trim_ws_end(buf@, start as int, end as int),
        start <= r <= end,
{
    let mut e = end;
    while e > start && (buf[e - 1] == 32 || (9 <= buf[e - 1] && buf[e - 1] <= 13))
        invariant
            start <= e <= end <= buf@.len(),
            trim_ws_end(buf@, start as int, e as int) == trim_ws_end(
                buf@,
                start as int,
                end as int,
            ),
        decreases e,
    {
        e = e - 1;
    }
    e
}

/// Parses `buf[start..end]` as `str::parse::<usize>` would.
fn parse_usize_exec(buf: &Vec<u8>, start: usize, end: usize) -> (r: Option<usize>)
    requires
        start <= end <= buf@.len(),
    ensures
        opt_nat(r) == parse_usize(buf@.subrange(start as int, end as int)),
{
    let ghost s = buf@.subrange(start as int, end as int);
    let mut p = start;
    if p < end && buf[p] == 43 {
        p = p + 1;
    }
    let ghost d = buf@.subrange(p as int, end as int);
    assert(d =~= (if s.len() > 0 && s[0] == 43 {
        s.drop_first()
    } else {
        s
    }));
    if p >= end {
        return None;
    }
    let mut value: usize = 0;
    let mut k = p;
    while k < end
        invariant
            start <= p <= k <= end <= buf@.len(),
            s == buf@.subrange(start as int, end as int),
            d == buf@.subrange(p as int, end as int),
            d == (if s.len() > 0 && s[0] == 43 {
                s.drop_first()
            } else {
                s
            }),
            all_digits(buf@.subrange(p as int, k as int)),
            value as nat == digits_value(buf@.subrange(p as int, k as int)),
        decreases end - k,
    {
        let b = buf[k];
        if b < 48 || b > 57 {
            assert(d[k - p] == b);
            assert(!all_digits(d));
            assert(parse_usize(s) is None);
            return None;
        }
        let next: u128 = (value as u128) * 10 + ((b - 48) as u128);
        let ghost pre = buf@.subrange(p as int, (k + 1) as int);
        assert(pre.drop_last() =~= buf@.subrange(p as int, k as int));
        assert(all_digits(pre)) by {
            assert forall|i: int| 0 <= i < pre.len() implies 48 <= #[trigger] pre[i] <= 57 by {
                if i < pre.len() - 1 {
                    assert(pre[i] == buf@.subrange(p as int, k as int)[i]);
                }
            }
        }
        assert(digits_value(pre) == next);
        if next > usize::MAX as u128 {
            proof {
                if all_digits(d) {
                    assert(d.subrange(0, (k + 1 - p) as int) =~= pre);
                    lemma_digits_prefix_le(d, (k + 1 - p) as int);
                }
                assert(parse_usize(s) is None);
            }
            return None;
        }
        value = next as usize;
        k = k + 1;
    }
    assert(buf@.subrange(p as int, k as int) =~= d);
    Some(value)
}

fn is_length_line_exec(buf: &Vec<u8>, start: usize, end: usize) -> (r: bool)
    requires
        start <= end <= buf@.len(),
    ensures
        r == is_length_line(buf@, start as int, end as int),
{
    let key = length_key_bytes();
    if end - start < key.len() {
        return false;
    }
    let mut k: usize = 0;
    while k < key.len()
        invariant
            key@ == length_key(),
            start + key@.len() <= end <= buf@.len(),
            0 <= k <= key@.len(),
            buf@.subrange(start as int, (start + k) as int) =~= key@.subrange(0, k as int),
        decreases key@.len() - k,
    {
        if buf[start + k] != key[k] {
            assert(buf@.subrange(start as int, start + length_key().len())[k as int]
                != length_key()[k as int]);
            return false;
        }
        k = k + 1;
    }
    assert(key@.subrange(0, key@.len() as int) =~= key@);
    true
}

fn length_value_exec(buf: &Vec<u8>, start: usize, end: usize) -> (r: Option<usize>)
    requires
        start + length_key().len() <= end <= buf@.len(),
    ensures
        opt_nat(r) == length_value(buf@, start as int, end as int),
{
    let vs = skip_ws_exec(buf, start + 15, end);
    let ve = trim_ws_end_exec(buf, vs, end);
    parse_usize_exec(buf, vs, ve)
}

/// The header block at the front of `buf`, as an executable result.
enum HeaderEnd {
    Incomplete,
    Done { length: Option<usize>, body_start: usize },
}

fn scan_header(buf: &Vec<u8>) -> (r: HeaderEnd)
    ensures
        match r {
            HeaderEnd::Incomplete => scan(buf@, 0, 0, None) is Incomplete,
            HeaderEnd::Done { length, body_start } => scan(buf@, 0, 0, None)
                == (HeaderScan::Done { length: opt_nat(length), body_start: body_start as nat }),
        },
        match r {
            HeaderEnd::Incomplete => true,
            HeaderEnd::Done { length, body_start } => body_start <= buf@.len(),
        },
{
    let mut line_start: usize = 0;
    let mut i: usize = 0;
    let mut length: Option<usize> = None;
    while i < buf.len()
        invariant
            line_start <= i <= buf@.len(),
            scan(buf@, 0, 0, None) == scan(buf@, line_start as int, i as int, opt_nat(length)),
        decreases buf@.len() - i,
    {
        if buf[i] == 10 {
            let e = trim_breaks_end_exec(buf, line_start, i + 1);
            if e == line_start {
                return HeaderEnd::Done { length, body_start: i + 1 };
            }
            if is_length_line_exec(buf, line_start, e) {
                length = length_value_exec(buf, line_start, e);
            }
            line_start = i + 1;
        }
        i = i + 1;
    }
    HeaderEnd::Incomplete
}

/// Why a frame could not be read.
#[derive(PartialEq, Eq, Structural, Clone, Copy, Debug)]
pub enum FrameError {
    /// The header block declared no usable length.
    MissingLength,
    /// The stream ended inside a body.
    Truncated,
    /// The body is no valid JSON.
    InvalidJson,
    /// The value could not be serialised, or its frame would not fit in memory.
    Unserialisable,
}

/// What one call of [`JsonRpcReader::read_message`] gives.
pub enum ReadOutcome {
    /// More bytes are needed before a frame is complete.
    Pending,
    /// The stream ended cleanly.
    Closed,
    /// A frame and the JSON value of its body.
    Message(Value),
    /// A frame that could not be read; its bytes were dropped where it had an end.
    Failed(FrameError),
}

/// Decodes frames from the bytes that the transport hands over.
pub struct JsonRpcReader {
    buffer: Vec<u8>,
    closed: bool,
}

impl JsonRpcReader {
    /// The bytes received and not yet consumed.
    pub closed spec fn buffered(&self) -> Seq<u8> {
        self.buffer@
    }

    /// Whether the stream has ended.
    pub closed spec fn is_closed(&self) -> bool {
        self.closed
    }

    pub fn new() -> (r: Self)
        ensures
            r.buffered() == Seq::<u8>::empty(),
            !r.is_closed(),
    {
        JsonRpcReader { buffer: Vec::new(), closed: false }
    }

    /// Hands over bytes read from the transport.
    pub fn feed(&mut self, bytes: &[u8])
        ensures
            final(self).buffered() == old(self).buffered() + bytes@,
            final(self).is_closed() == old(self).is_closed(),
    {
        let mut k: usize = 0;
        while k < bytes.len()
            invariant
                0 <= k <= bytes@.len(),
                self.buffer@ == old(self).buffer@ + bytes@.subrange(0, k as int),
                self.closed == old(self).closed,
            decreases bytes@.len() - k,
        {
            self.buffer.push(bytes[k]);
            k = k + 1;
            assert(self.buffer@ =~= old(self).buffer@ + bytes@.subrange(0, k as int));
        }
        assert(bytes@.subrange(0, k as int) =~= bytes@);
    }

    /// Records that the transport has reached its end.
    pub fn close(&mut self)
        ensures
            final(self).buffered() == old(self).buffered(),
            final(self).is_closed(),
    {
        self.closed = true;
    }

    /// What the front of the buffer holds.
    pub fn next_frame(&self) -> (r: FrameScan)
        ensures
            r == decode(self.buffered(), self.is_closed()),
            match r {
                FrameScan::MissingLength { consumed } => consumed <= self.buffered().len(),
                FrameScan::Body { start, len } => start + len <= self.buffered().len(),
                _ => true,
            },
    {
        match scan_header(&self.buffer) {
            HeaderEnd::Incomplete => if self.closed {
                FrameScan::Closed
            } else {
                FrameScan::Pending
            },
            HeaderEnd::Done { length, body_start } => match length {
                None => FrameScan::MissingLength { consumed: body_start },
                Some(n) => if n <= self.buffer.len() - body_start {
                    FrameScan::Body { start: body_start, len: n }
                } else if self.closed {
                    FrameScan::Truncated
                } else {
                    FrameScan::Pending
                },
            },
        }
    }

    /// Drops the first `n` buffered bytes.
    fn consume(&mut self, n: usize)
        requires
            n <= old(self).buffer@.len(),
        ensures
            final(self).buffer@ == old(self).buffer@.skip(n as int),
            final(self).closed == old(self).closed,
    {
        let mut rest: Vec<u8> = Vec::new();
        let mut k = n;
        while k < self.buffer.len()
            invariant
                n <= k <= self.buffer@.len(),
                rest@ == self.buffer@.subrange(n as int, k as int),
            decreases self.buffer@.len() - k,
        {
            rest.push(self.buffer[k]);
            k = k + 1;
            assert(rest@ =~= self.buffer@.subrange(n as int, k as int));
        }
        assert(rest@ =~= self.buffer@.skip(n as int));
        self.buffer = rest;
    }

    /// Takes the first frame off the buffer and parses its body, read as UTF-8
    /// with invalid sequences replaced, as JSON. A body that is no JSON is
    /// dropped with its frame. A header block without a usable length is
    /// dropped up to its blank line; the body after it, whose length is
    /// unknown, stays in the buffer and is read as the next header block.
    pub fn read_message(&mut self) -> (r: ReadOutcome)
        ensures
            final(self).is_closed() == old(self).is_closed(),
            match decode(old(self).buffered(), old(self).is_closed()) {
                FrameScan::Pending => r is Pending && final(self).buffered() == old(
                    self,
                ).buffered(),
                FrameScan::Closed => r is Closed && final(self).buffered() == old(
                    self,
                ).buffered(),
                FrameScan::Truncated => r == ReadOutcome::Failed(FrameError::Truncated)
                    && final(self).buffered() == old(self).buffered(),
                FrameScan::MissingLength { consumed } => r == ReadOutcome::Failed(
                    FrameError::MissingLength,
                ) && final(self).buffered() == old(self).buffered().skip(consumed as int),
                FrameScan::Body { start, len } => {
                    &&& final(self).buffered() == old(self).buffered().skip(start + len)
                    &&& (r is Message <==> json_accepts(
                        utf8_lossy(old(self).buffered().subrange(start as int, start + len)),
                    ))
                    &&& match r {
                        ReadOutcome::Message(v) => v == json_value_of(
                            utf8_lossy(old(self).buffered().subrange(start as int, start + len)),
                        ),
                        _ => r == ReadOutcome::Failed(FrameError::InvalidJson),
                    }
                },
            },
    {
        match self.next_frame() {
            FrameScan::Pending => ReadOutcome::Pending,
            FrameScan::Closed => ReadOutcome::Closed,
            FrameScan::Truncated => ReadOutcome::Failed(FrameError::Truncated),
            FrameScan::MissingLength { consumed } => {
                self.consume(consumed);
                ReadOutcome::Failed(FrameError::MissingLength)
            },
            FrameScan::Body { start, len } => {
                let blen = self.buffer.len();
                assert(start + len <= blen);
                let stop = start + len;
                let mut body: Vec<u8> = Vec::new();
                let mut k = start;
                while k < stop
                    invariant
                        stop == start + len,
                        start <= k <= stop <= self.buffer@.len(),
                        body@ == self.buffer@.subrange(start as int, k as int),
                    decreases stop - k,
                {
                    body.push(self.buffer[k]);
                    k = k + 1;
                    assert(body@ =~= self.buffer@.subrange(start as int, k as int));
                }
                self.consume(stop);
                let text = from_utf8_lossy(body.as_slice());
                match parse_json(text.as_str()) {
                    Ok(v) => ReadOutcome::Message(v),
                    Err(_) => ReadOutcome::Failed(FrameError::InvalidJson),
                }
            },
        }
    }
}

/// Encodes frames into the bytes that the transport is to send.
pub struct JsonRpcWriter {
    output: Vec<u8>,
}

impl JsonRpcWriter {
    /// The bytes encoded and not yet taken.
    pub closed spec fn queued(&self) -> Seq<u8> {
        self.output@
    }

    pub fn new() -> (r: Self)
        ensures
            r.queued() == Seq::<u8>::empty(),
    {
        JsonRpcWriter { output: Vec::new() }
    }

    /// Frames `body` as it stands.
    pub fn write_body(&mut self, body: &[u8])
        requires
            old(self).queued().len() + frame_bytes(body@).len() <= usize::MAX,
        ensures
            final(self).queued() == old(self).queued() + frame_bytes(body@),
    {
        let key = length_key_bytes();
        let mut k: usize = 0;
        while k < key.len()
            invariant
                key@ == length_key(),
                0 <= k <= key@.len(),
                self.output@ == old(self).output@ + key@.subrange(0, k as int),
            decreases key@.len() - k,
        {
            self.output.push(key[k]);
            k = k + 1;
            assert(self.output@ =~= old(self).output@ + key@.subrange(0, k as int));
        }
        assert(key@.subrange(0, key@.len() as int) =~= key@);
        self.output.push(32u8);
        push_decimal(&mut self.output, body.len());
        self.output.push(13u8);
        self.output.push(10u8);
        self.output.push(13u8);
        self.output.push(10u8);
        let ghost head = self.output@;
        let mut j: usize = 0;
        while j < body.len()
            invariant
                0 <= j <= body@.len(),
                self.output@ == head + body@.subrange(0, j as int),
            decreases body@.len() - j,
        {
            self.output.push(body[j]);
            j = j + 1;
            assert(self.output@ =~= head + body@.subrange(0, j as int));
        }
        assert(body@.subrange(0, j as int) =~= body@);
        assert(self.output@ =~= old(self).output@ + frame_bytes(body@));
    }

    /// Serialises `value` to its compact JSON text and frames it. It fails,
    /// queuing nothing, only where the queue would outgrow memory.
    pub fn write_message(&mut self, value: &Value) -> (r: Result<(), FrameError>)
        ensures
            r is Ok ==> final(self).queued() == old(self).queued() + frame_bytes(json_text(*value)),
            r is Ok <==> old(self).queued().len() + json_text(*value).len() + 64 <= usize::MAX,
            r is Err ==> final(self).queued() == old(self).queued() && r == Err::<(), FrameError>(
                FrameError::Unserialisable,
            ),
    {
        match serialize_json(value) {
            Ok(body) => {
                if body.len() > usize::MAX - 64 || self.output.len() > usize::MAX - 64 - body.len() {
                    return Err(FrameError::Unserialisable);
                }
                proof {
                    lemma_decimal_len_bound(body@.len());
                }
                self.write_body(body.as_slice());
                Ok(())
            },
            Err(_) => Err(FrameError::Unserialisable),
        }
    }

    /// Hands over the queued bytes for sending.
    pub fn take_output(&mut self) -> (r: Vec<u8>)
        ensures
            r@ == old(self).queued(),
            final(self).queued() == Seq::<u8>::empty(),
    {
        let mut out: Vec<u8> = Vec::new();
        std::mem::swap(&mut out, &mut self.output);
        out
    }
}

/// A number below `2^64` has at most twenty digits.
proof fn lemma_decimal_len_bound(n: nat)
    requires
        n <= usize::MAX,
    ensures
        decimal(n).len() <= 20,
{
    reveal_with_fuel(pow10, 21);
    assert(pow10(20) == 100000000000000000000nat);
    lemma_decimal_len_pow(n, 20);
}

proof fn lemma_decimal_len_pow(n: nat, k: nat)
    requires
        k >= 1,
        n < pow10(k),
    ensures
        decimal(n).len() <= k,
    decreases k,
{
    if n >= 10 {
        if k == 1 {
            assert(pow10(1) == 10 * pow10(0));
        } else {
            assert(pow10(k) == 10 * pow10((k - 1) as nat));
            lemma_decimal_len_pow(n / 10, (k - 1) as nat);
        }
    }
}

pub open spec fn pow10(k: nat) -> nat
    decreases k,
{
    if k == 0 {
        1
    } else {
        10 * pow10((k - 1) as nat)
    }
}


/// Bytes that `str::trim` drops and that cannot end a line: spaces and tabs.
pub open spec fn is_blank_run(s: Seq<u8>) -> bool {
    forall|i: int| 0 <= i < s.len() ==> (#[trigger] s[i] == 32u8 || s[i] == 9u8)
}

proof fn lemma_scan_skip(buf: Seq<u8>, ls: int, i: int, j: int, length: Option<nat>)
    requires
        0 <= i <= j <= buf.len(),
        forall|k: int| i <= k < j ==> #[trigger] buf[k] != 10u8,
    ensures
        scan(buf, ls, i, length) == scan(buf, ls, j, length),
    decreases j - i,
{
    if i < j {
        lemma_scan_skip(buf, ls, i + 1, j, length);
    }
}

proof fn lemma_skip_ws_run(buf: Seq<u8>, s: int, m: int, e: int)
    requires
        0 <= s <= m <= e <= buf.len(),
        forall|k: int| s <= k < m ==> is_ws(#[trigger] buf[k]),
        m < e ==> !is_ws(buf[m]),
    ensures
        skip_ws(buf, s, e) == m,
    decreases m - s,
{
    if s < m {
        lemma_skip_ws_run(buf, s + 1, m, e);
    }
}

proof fn lemma_trim_ws_run(buf: Seq<u8>, s: int, m: int, e: int)
    requires
        0 <= s <= m <= e <= buf.len(),
        forall|k: int| m <= k < e ==> is_ws(#[trigger] buf[k]),
        m > s ==> !is_ws(buf[m - 1]),
    ensures
        trim_ws_end(buf, s, e) == m,
    decreases e - m,
{
    if m < e {
        lemma_trim_ws_run(buf, s, m, e - 1);
    }
}

/// A length line with any run of spaces or tabs around the number declares
/// that number: `Content-Length:<pre><n><post>\r\n\r\n` followed by at least `n`
/// bytes is one complete frame whose body is the next `n` bytes.
pub proof fn lemma_length_with_blanks(pre: Seq<u8>, n: nat, post: Seq<u8>, tail: Seq<u8>, closed: bool)
    requires
        is_blank_run(pre),
        is_blank_run(post),
        tail.len() >= n,
        length_key().len() + pre.len() + decimal(n).len() + post.len() + 4 + tail.len()
            <= usize::MAX,
    ensures
        ({
            let head = length_key() + pre + decimal(n) + post + header_end();
            decode(head + tail, closed) == (FrameScan::Body {
                start: head.len() as usize,
                len: n as usize,
            })
        }),
{
    lemma_decimal_digits(n);
    let key = length_key();
    let dec = decimal(n);
    let line = key + pre + dec + post;
    let head = line + header_end();
    let buf = head + tail;
    let h = line.len() as int;
    let kl = key.len() as int;
    let vs = kl + pre.len();
    let ve = vs + dec.len();
    assert(buf.subrange(0, h) =~= line);
    assert forall|k: int| 0 <= k < h implies #[trigger] buf[k] != 10u8 && buf[k] != 13u8 by {
        assert(buf[k] == line[k]);
        if k < kl {
            assert(line[k] == key[k]);
        } else if k < vs {
            assert(line[k] == pre[k - kl]);
        } else if k < ve {
            assert(line[k] == dec[k - vs]);
        } else {
            assert(line[k] == post[k - ve]);
        }
    }
    assert(buf[h] == 13u8 && buf[h + 1] == 10u8 && buf[h + 2] == 13u8 && buf[h + 3] == 10u8);
    lemma_scan_skip(buf, 0, 0, h + 1, None);
    assert(buf[h - 1] == line[h - 1]);
    assert(trim_breaks_end(buf, 0, h) == h);
    assert(trim_breaks_end(buf, 0, h + 1) == trim_breaks_end(buf, 0, h));
    assert(trim_breaks_end(buf, 0, h + 2) == trim_breaks_end(buf, 0, h + 1));
    assert(is_length_line(buf, 0, h)) by {
        assert(buf.subrange(0, kl) =~= key);
    }
    assert forall|k: int| kl <= k < vs implies is_ws(#[trigger] buf[k]) by {
        assert(buf[k] == pre[k - kl]);
    }
    assert(buf[vs] == dec[0]);
    lemma_skip_ws_run(buf, kl, vs, h);
    assert forall|k: int| ve <= k < h implies is_ws(#[trigger] buf[k]) by {
        assert(buf[k] == post[k - ve]);
    }
    assert(buf[ve - 1] == dec[dec.len() - 1]);
    lemma_trim_ws_run(buf, vs, ve, h);
    assert(buf.subrange(vs, ve) =~= dec);
    assert(parse_usize(dec) == Some(n));
    assert(length_value(buf, 0, h) == Some(n));
    assert(scan(buf, 0, h + 1, None) == scan(buf, h + 2, h + 2, Some(n)));
    assert(scan(buf, h + 2, h + 2, Some(n)) == scan(buf, h + 2, h + 3, Some(n)));
    assert(trim_breaks_end(buf, h + 2, h + 3) == trim_breaks_end(buf, h + 2, h + 2));
    assert(trim_breaks_end(buf, h + 2, h + 4) == trim_breaks_end(buf, h + 2, h + 3));
    assert(scan(buf, h + 2, h + 3, Some(n)) == (HeaderScan::Done {
        length: Some(n),
        body_start: (h + 4) as nat,
    }));
}

/// Round trip: the bytes that frame `body`, followed by anything, decode to one
/// complete frame whose body is exactly `body` and which ends where the frame ends.
pub proof fn lemma_frame_round_trip(body: Seq<u8>, rest: Seq<u8>, closed: bool)
    requires
        frame_bytes(body).len() + rest.len() <= usize::MAX,
    ensures
        ({
            let buf = frame_bytes(body) + rest;
            let start = frame_bytes(body).len() - body.len();
            &&& decode(buf, closed) == (FrameScan::Body {
                start: start as usize,
                len: body.len() as usize,
            })
            &&& buf.subrange(start, start + body.len()) == body
            &&& start + body.len() == frame_bytes(body).len()
        }),
{
    let pre = seq![32u8];
    let post = Seq::<u8>::empty();
    let head = length_key() + pre + decimal(body.len()) + post + header_end();
    assert(head + (body + rest) =~= frame_bytes(body) + rest);
    lemma_length_with_blanks(pre, body.len(), post, body + rest, closed);
    let buf = frame_bytes(body) + rest;
    assert(buf.subrange(head.len() as int, (head.len() + body.len()) as int) =~= body);
}

/// A header block whose one line does not start with the length key declares
/// no length: its frame is refused, and its bytes up to the blank line dropped.
pub proof fn lemma_missing_length(line: Seq<u8>, tail: Seq<u8>, closed: bool)
    requires
        line.len() > 0,
        line.len() + 4 + tail.len() <= usize::MAX,
        forall|i: int| 0 <= i < line.len() ==> #[trigger] line[i] != 10u8 && line[i] != 13u8,
        !(line.len() >= length_key().len() && line.subrange(0, length_key().len() as int)
            == length_key()),
    ensures
        decode(line + header_end() + tail, closed) == (FrameScan::MissingLength {
            consumed: (line.len() + 4) as usize,
        }),
{
    let buf = line + header_end() + tail;
    let h = line.len() as int;
    assert forall|k: int| 0 <= k < h implies #[trigger] buf[k] != 10u8 by {
        assert(buf[k] == line[k]);
    }
    assert(buf[h] == 13u8 && buf[h + 1] == 10u8 && buf[h + 2] == 13u8 && buf[h + 3] == 10u8);
    lemma_scan_skip(buf, 0, 0, h + 1, None);
    assert(buf[h - 1] == line[h - 1]);
    assert(trim_breaks_end(buf, 0, h) == h);
    assert(trim_breaks_end(buf, 0, h + 1) == trim_breaks_end(buf, 0, h));
    assert(trim_breaks_end(buf, 0, h + 2) == trim_breaks_end(buf, 0, h + 1));
    assert(!is_length_line(buf, 0, h)) by {
        if h >= length_key().len() {
            assert(buf.subrange(0, length_key().len() as int) =~= line.subrange(
                0,
                length_key().len() as int,
            ));
        }
    }
    assert(scan(buf, 0, h + 1, None) == scan(buf, h + 2, h + 2, None));
    assert(scan(buf, h + 2, h + 2, None) == scan(buf, h + 2, h + 3, None));
    assert(trim_breaks_end(buf, h + 2, h + 3) == trim_breaks_end(buf, h + 2, h + 2));
    assert(trim_breaks_end(buf, h + 2, h + 4) == trim_breaks_end(buf, h + 2, h + 3));
}

/// The frames of `bodies`, one after the other.
pub open spec fn frames_of(bodies: Seq<Seq<u8>>) -> Seq<u8>
    decreases bodies.len(),
{
    if bodies.len() == 0 {
        Seq::empty()
    } else {
        frame_bytes(bodies[0]) + frames_of(bodies.drop_first())
    }
}

/// The bodies of the first `n` frames that decoding `buf` finds, one after
/// the other, each read from where the one before ended.
pub open spec fn bodies_read(buf: Seq<u8>, n: nat, closed: bool) -> Seq<Seq<u8>>
    decreases n,
{
    if n == 0 {
        Seq::empty()
    } else {
        match decode(buf, closed) {
            FrameScan::Body { start, len } => seq![buf.subrange(start as int, start + len)]
                + bodies_read(buf.skip(start + len), (n - 1) as nat, closed),
            _ => Seq::empty(),
        }
    }
}

/// Frames written one after the other are read back one after the other,
/// each with exactly its own body, and nothing is left once all are read.
pub proof fn lemma_frames_in_order(bodies: Seq<Seq<u8>>, closed: bool)
    requires
        frames_of(bodies).len() <= usize::MAX,
    ensures
        bodies_read(frames_of(bodies), bodies.len(), closed) == bodies,
        decode(frames_of(bodies).skip(frames_of(bodies).len() as int), closed) == (if closed {
            FrameScan::Closed
        } else {
            FrameScan::Pending
        }),
    decreases bodies.len(),
{
    let buf = frames_of(bodies);
    assert(buf.skip(buf.len() as int) =~= Seq::<u8>::empty());
    if bodies.len() > 0 {
        let rest = bodies.drop_first();
        let tail = frames_of(rest);
        lemma_frame_round_trip(bodies[0], tail, closed);
        let flen = frame_bytes(bodies[0]).len();
        assert(buf.skip(flen as int) =~= tail);
        lemma_frames_in_order(rest, closed);
        assert(bodies_read(buf, bodies.len(), closed) =~= seq![bodies[0]] + bodies_read(
            tail,
            rest.len(),
            closed,
        ));
        assert(seq![bodies[0]] + rest =~= bodies);
    }
}

} // verus!
