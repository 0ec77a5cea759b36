//! Length-prefixed frames: `<decimal byte length>.\n<payload>`.

use vstd::prelude::*;
use vstd::string::*;
use vstd::utf8::*;

verus! {

/// ASCII codes that the header grammar cares about.
pub const DOT: u8 = 46;

pub const LINE_FEED: u8 = 10;

pub const CARRIAGE_RETURN: u8 = 13;

pub open spec fn is_digit(b: u8) -> bool {
    48 <= b <= 57
}

/// The value of a sequence of decimal digit bytes, most significant first.
pub open spec fn digits_value(d: Seq<u8>) -> nat
    decreases d.len(),
{
    if d.len() == 0 {
        0
    } else {
        digits_value(d.drop_last()) * 10 + (d.last() - 48) as nat
    }
}

/// The shortest decimal text of `n`, as ASCII bytes.
pub open spec fn decimal(n: nat) -> Seq<u8>
    decreases n,
{
    if n < 10 {
        seq![(48 + n) as u8]
    } else {
        decimal(n / 10).push((48 + n % 10) as u8)
    }
}

pub open spec fn ends_with_terminator(m: Seq<char>) -> bool {
    m.len() >= 2 && m[m.len() - 2] == '.' && m[m.len() - 1] == '\n'
}

/// The payload that is sent for a message: it always ends in `".\n"`; a
/// single trailing `'.'` is not doubled.
pub open spec fn normalized(m: Seq<char>) -> Seq<char> {
    if ends_with_terminator(m) {
        m
    } else if m.len() >= 1 && m.last() == '.' {
        m.drop_last() + seq!['.', '\n']
    } else {
        m + seq!['.', '\n']
    }
}

/// A received payload with one trailing `".\n"` removed, if it has one.
pub open spec fn strip_terminator(m: Seq<char>) -> Seq<char> {
    if ends_with_terminator(m) {
        m.subrange(0, m.len() - 2)
    } else {
        m
    }
}

/// The bytes of the frame that carries message `m`.
pub open spec fn frame_bytes(m: Seq<char>) -> Seq<u8> {
    let payload = encode_utf8(normalized(m));
    decimal(payload.len()) + seq![DOT, LINE_FEED] + payload
}

/// Appends the decimal digits of `n` to `out`.
pub fn push_decimal(out: &mut Vec<u8>, n: usize)
    ensures
        final(out)@ == old(out)@ + decimal(n as nat),
    decreases n,
{
    if n >= 10 {
        push_decimal(out, n / 10);
    }
    let d: u8 = (n % 10) as u8;
    out.push(48 + d);
    assert(final(out)@ =~= old(out)@ + decimal(n as nat));
}

/// The payload text sent for `message`: see [`normalized`].
pub fn normalize_message(message: &str) -> (r: String)
    ensures
        r@ == normalized(message@),
{
    proof {
        reveal_strlit(".\n");
    }
    let n = message.unicode_len();
    if n >= 2 && message.get_char(n - 2) == '.' && message.get_char(n - 1) == '\n' {
        String::from_str(message)
    } else if n >= 1 && message.get_char(n - 1) == '.' {
        let mut r = String::from_str(message.substring_char(0, n - 1));
        r.append(".\n");
        assert(r@ =~= normalized(message@));
        r
    } else {
        let mut r = String::from_str(message);
        r.append(".\n");
        assert(r@ =~= normalized(message@));
        r
    }
}

/// Writes `payload` as it is, after its length header, to the end of `out`.
pub fn write_frame(out: &mut Vec<u8>, payload: &[u8])
    ensures
        final(out)@ == old(out)@ + decimal(payload@.len()) + seq![DOT, LINE_FEED] + payload@,
{
    push_decimal(out, payload.len());
    out.push(DOT);
    out.push(LINE_FEED);
    out.extend_from_slice(payload);
    assert(final(out)@ =~= old(out)@ + decimal(payload@.len()) + seq![DOT, LINE_FEED] + payload@);
}

/// Writes the frame that carries `message` to the end of `out`: the byte
/// length of the normalized payload in decimal, `".\n"`, then the payload.
pub fn send_message(out: &mut Vec<u8>, message: &str)
    ensures
        final(out)@ == old(out)@ + frame_bytes(message@),
{
    let payload = normalize_message(message);
    write_frame(out, payload.as_str().as_bytes());
    assert(final(out)@ =~= old(out)@ + frame_bytes(message@));
}

/// Why a byte stream does not hold a well-formed frame.
#[derive(Clone, Copy, Debug, PartialEq, Eq, Structural)]
pub enum FrameError {
    /// A byte other than a digit or `'.'` after the first digit.
    InvalidLengthByte(u8),
    /// The byte that stood where the line feed after the header belonged.
    MissingLineFeed(u8),
    /// The announced length does not fit in `usize`.
    LengthOverflow,
    /// The payload is not valid UTF-8.
    InvalidUtf8,
}

/// What the front of a byte stream holds.
#[derive(Debug)]
pub enum FrameScan {
    /// More bytes are needed before anything can be said.
    Incomplete,
    /// A frame: its payload text (one trailing `".\n"` removed) and the number
    /// of bytes it took, heartbeats included.
    Complete(String, usize),
    Malformed(FrameError),
}

/// Model of [`FrameScan`].
pub enum FrameScanView {
    Incomplete,
    Complete(Seq<char>, nat),
    Malformed(FrameError),
}

impl View for FrameScan {
    type V = FrameScanView;

    open spec fn view(&self) -> FrameScanView {
        match self {
            FrameScan::Incomplete => FrameScanView::Incomplete,
            FrameScan::Complete(t, n) => FrameScanView::Complete(t@, *n as nat),
            FrameScan::Malformed(e) => FrameScanView::Malformed(*e),
        }
    }
}

/// How a scan of the length header ends.
pub enum HeaderScan {
    Incomplete,
    /// The position of the `'.'` that closes the header, and the digits read.
    Dot(int, Seq<u8>),
    BadByte(u8),
}

/// Scans the header from position `i`, with `digits` already collected.
/// Before the first digit every other byte is skipped: a lone `'.'` is a
/// heartbeat, CR, LF and anything else are noise. After it, only digits and
/// the closing `'.'` may come.
pub open spec fn scan_header(b: Seq<u8>, i: int, digits: Seq<u8>) -> HeaderScan
    decreases b.len() - i,
{
    if i < 0 || i >= b.len() {
        HeaderScan::Incomplete
    } else {
        let c = b[i];
        if is_digit(c) {
            scan_header(b, i + 1, digits.push(c))
        } else if digits.len() == 0 {
            scan_header(b, i + 1, digits)
        } else if c == DOT {
            HeaderScan::Dot(i, digits)
        } else {
            HeaderScan::BadByte(c)
        }
    }
}

/// The payload of `digits_value(digits)` bytes that starts at `start`.
pub open spec fn scan_payload(b: Seq<u8>, start: int, digits: Seq<u8>) -> FrameScanView {
    let n = digits_value(digits);
    if n > usize::MAX {
        FrameScanView::Malformed(FrameError::LengthOverflow)
    } else {
        scan_payload_of_len(b, start, n)
    }
}

/// What the stream `b` starts with.
pub open spec fn scan_frame(b: Seq<u8>) -> FrameScanView {
    match scan_header(b, 0, seq![]) {
        HeaderScan::Incomplete => FrameScanView::Incomplete,
        HeaderScan::BadByte(c) => FrameScanView::Malformed(FrameError::InvalidLengthByte(c)),
        HeaderScan::Dot(d, digits) => if d + 1 >= b.len() {
            FrameScanView::Incomplete
        } else if b[d + 1] == LINE_FEED {
            scan_payload(b, d + 2, digits)
        } else if b[d + 1] != CARRIAGE_RETURN {
            FrameScanView::Malformed(FrameError::MissingLineFeed(b[d + 1]))
        } else if d + 2 >= b.len() {
            FrameScanView::Incomplete
        } else if b[d + 2] == LINE_FEED {
            scan_payload(b, d + 3, digits)
        } else {
            FrameScanView::Malformed(FrameError::MissingLineFeed(b[d + 2]))
        },
    }
}

/// Relies on `String::from_utf8`: it succeeds exactly on valid UTF-8 and then
/// holds the characters that the bytes encode.
#[verifier::external_body]
pub(crate) fn utf8_to_string(bytes: Vec<u8>) -> (r: Option<String>)
    ensures
        r is Some <==> valid_utf8(bytes@),
        r is Some ==> r->Some_0@ == decode_utf8(bytes@),
{
    String::from_utf8(bytes).ok()
}

/// Removes one trailing `".\n"`.
pub fn strip_message_terminator(text: String) -> (r: String)
    ensures
        r@ == strip_terminator(text@),
{
    let n = text.as_str().unicode_len();
    if n >= 2 && text.as_str().get_char(n - 2) == '.' && text.as_str().get_char(n - 1) == '\n' {
        String::from_str(text.as_str().substring_char(0, n - 2))
    } else {
        text
    }
}

/// The payload of `n` bytes that starts at `start`: more bytes are needed,
/// or it must be UTF-8.
pub open spec fn scan_payload_of_len(b: Seq<u8>, start: int, n: nat) -> FrameScanView {
    if start + n > b.len() {
        FrameScanView::Incomplete
    } else {
        let p = b.subrange(start, start + n);
        if valid_utf8(p) {
            FrameScanView::Complete(strip_terminator(decode_utf8(p)), (start + n) as nat)
        } else {
            FrameScanView::Malformed(FrameError::InvalidUtf8)
        }
    }
}

/// Reads the payload of `n` bytes that starts at `start`.
fn read_payload(b: &[u8], start: usize, n: usize) -> (r: FrameScan)
    requires
        start <= b@.len(),
    ensures
        r@ == scan_payload_of_len(b@, start as int, n as nat),
{
    if n > b.len() - start {
        return FrameScan::Incomplete;
    }
    let mut p: Vec<u8> = Vec::new();
    let end = start + n;
    let mut i: usize = start;
    while i < end
        invariant
            end == start + n,
            start <= i <= end <= b@.len(),
            p@ == b@.subrange(start as int, i as int),
        decreases end - i,
    {
        p.push(b[i]);
        i = i + 1;
        assert(p@ =~= b@.subrange(start as int, i as int));
    }
    match utf8_to_string(p) {
        Some(text) => FrameScan::Complete(strip_message_terminator(text), start + n),
        None => FrameScan::Malformed(FrameError::InvalidUtf8),
    }
}

/// Looks for one frame at the front of `b`. Bytes that precede its header and
/// cannot start one (heartbeat dots, line ends, noise) are skipped.
pub fn decode_frame(b: &[u8]) -> (r: FrameScan)
    ensures
        r@ == scan_frame(b@),
{
    let mut i: usize = 0;
    let mut value: usize = 0;
    let mut overflow = false;
    let mut have_digit = false;
    let ghost mut digits: Seq<u8> = seq![];
    while i < b.len()
        invariant
            0 <= i <= b@.len(),
            scan_header(b@, i as int, digits) == scan_header(b@, 0, seq![]),
            overflow <==> digits_value(digits) > usize::MAX,
            have_digit <==> digits.len() > 0,
            !overflow ==> value == digits_value(digits),
        ensures
            0 <= i <= b@.len(),
            scan_header(b@, i as int, digits) == scan_header(b@, 0, seq![]),
            overflow <==> digits_value(digits) > usize::MAX,
            !overflow ==> value == digits_value(digits),
            i < b@.len() ==> b@[i as int] == DOT && digits.len() > 0,
        decreases b@.len() - i,
    {
        let c = b[i];
        if 48 <= c && c <= 57 {
            proof {
                assert(digits.push(c).drop_last() =~= digits);
            }
            if !overflow {
                if value > (usize::MAX - (c - 48) as usize) / 10 {
                    overflow = true;
                } else {
                    value = value * 10 + (c - 48) as usize;
                }
            }
            proof {
                digits = digits.push(c);
            }
            have_digit = true;
            i = i + 1;
        } else if !have_digit {
            i = i + 1;
        } else if c == DOT {
            break;
        } else {
            return FrameScan::Malformed(FrameError::InvalidLengthByte(c));
        }
    }
    if i >= b.len() {
        return FrameScan::Incomplete;
    }
    assert(scan_header(b@, i as int, digits) == HeaderScan::Dot(i as int, digits));
    if i + 1 >= b.len() {
        return FrameScan::Incomplete;
    }
    let start: usize;
    if b[i + 1] == LINE_FEED {
        start = i + 2;
    } else if b[i + 1] != CARRIAGE_RETURN {
        return FrameScan::Malformed(FrameError::MissingLineFeed(b[i + 1]));
    } else if i + 2 >= b.len() {
        return FrameScan::Incomplete;
    } else if b[i + 2] == LINE_FEED {
        start = i + 3;
    } else {
        return FrameScan::Malformed(FrameError::MissingLineFeed(b[i + 2]));
    }
    if overflow {
        return FrameScan::Malformed(FrameError::LengthOverflow);
    }
    read_payload(b, start, value)
}

proof fn lemma_decimal(n: nat)
    ensures
        decimal(n).len() > 0,
        forall|i: int| 0 <= i < decimal(n).len() ==> is_digit(#[trigger] decimal(n)[i]),
        digits_value(decimal(n)) == n,
    decreases n,
{
    if n >= 10 {
        lemma_decimal(n / 10);
        assert(decimal(n).drop_last() =~= decimal(n / 10));
        assert((n / 10) * 10 + n % 10 == n) by (nonlinear_arith);
        assert(decimal(n).last() == (48 + n % 10) as u8);
        assert(digits_value(decimal(n)) == digits_value(decimal(n / 10)) * 10 + n % 10);
    } else {
        assert(decimal(n).drop_last() =~= Seq::<u8>::empty());
        assert(digits_value(decimal(n)) == digits_value(Seq::<u8>::empty()) * 10 + n);
    }
}

/// A run of `k` digits from `i`, closed by a dot, ends the header there.
proof fn lemma_scan_digits(b: Seq<u8>, i: int, acc: Seq<u8>, k: int)
    requires
        0 <= i,
        0 <= k,
        i + k < b.len(),
        acc.len() + k > 0,
        forall|j: int| i <= j < i + k ==> is_digit(#[trigger] b[j]),
        b[i + k] == DOT,
    ensures
        scan_header(b, i, acc) == HeaderScan::Dot(i + k, acc + b.subrange(i, i + k)),
    decreases k,
{
    if k == 0 {
        assert(acc + b.subrange(i, i) =~= acc);
    } else {
        lemma_scan_digits(b, i + 1, acc.push(b[i]), k - 1);
        assert(acc.push(b[i]) + b.subrange(i + 1, i + k) =~= acc + b.subrange(i, i + k));
    }
}

/// A frame built for a message reads back as that message, normalized and
/// with its terminator removed, and is consumed whole.
pub proof fn lemma_frame_round_trip(m: Seq<char>)
    requires
        encode_utf8(normalized(m)).len() <= usize::MAX,
    ensures
        scan_frame(frame_bytes(m)) == FrameScanView::Complete(
            strip_terminator(normalized(m)),
            frame_bytes(m).len(),
        ),
{
    broadcast use encode_utf8_valid_utf8, encode_utf8_decode_utf8;

    let payload = encode_utf8(normalized(m));
    let n = payload.len();
    let header = decimal(n);
    let b = frame_bytes(m);
    lemma_decimal(n);
    let k = header.len() as int;
    assert(b.subrange(0, k) =~= header);
    assert forall|j: int| 0 <= j < k implies is_digit(#[trigger] b[j]) by {
        assert(b[j] == header[j]);
    }
    lemma_scan_digits(b, 0, seq![], k);
    assert(seq![] + b.subrange(0, k) =~= header);
    assert(b.subrange(k + 2, k + 2 + n) =~= payload);
}

/// A frame followed by any further bytes reads the same, and leaves those
/// bytes for the next read.
pub proof fn lemma_frame_in_stream(m: Seq<char>, rest: Seq<u8>)
    requires
        encode_utf8(normalized(m)).len() <= usize::MAX,
    ensures
        scan_frame(frame_bytes(m) + rest) == FrameScanView::Complete(
            strip_terminator(normalized(m)),
            frame_bytes(m).len(),
        ),
{
    broadcast use encode_utf8_valid_utf8, encode_utf8_decode_utf8;

    let payload = encode_utf8(normalized(m));
    let n = payload.len();
    let header = decimal(n);
    let b = frame_bytes(m) + rest;
    lemma_decimal(n);
    let k = header.len() as int;
    assert forall|j: int| 0 <= j < k implies is_digit(#[trigger] b[j]) by {
        assert(b[j] == header[j]);
    }
    assert(b[k] == DOT);
    lemma_scan_digits(b, 0, seq![], k);
    assert(b.subrange(0, k) =~= header);
    assert(seq![] + b.subrange(0, k) =~= header);
    assert(b[k + 1] == LINE_FEED);
    assert(b.subrange(k + 2, k + 2 + n) =~= payload);
}

} // verus!
