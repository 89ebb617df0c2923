//! The layout of a frame on the wire, and the grammar that finds frames in a
//! buffer.
//!
//! ```text
//! offset  size  field
//!      0     4  prefix 00 00 55 AA
//!      4     4  sequence number
//!      8     4  command
//!     12     4  length of all that follows
//!     16     4  return code, only in replies
//!      …     P  payload region
//!      …     4  CRC-32 of all that precedes it in the frame
//!      …     4  suffix 00 00 AA 55
//! ```
//!
//! All integers are big-endian.
use vstd::prelude::*;
use vstd::slice::slice_subrange;
use crate::crc::crc32;
use crate::error::ErrorKind;
use crate::error::ParseErrorKind;
use crate::error::Result;

verus! {

/// The magic number that opens a frame.
pub open spec fn prefix() -> Seq<u8> {
    seq![0x00u8, 0x00u8, 0x55u8, 0xaau8]
}

/// The magic number that closes a frame.
pub open spec fn suffix() -> Seq<u8> {
    seq![0x00u8, 0x00u8, 0xaau8, 0x55u8]
}

/// The four bytes of `n`, most significant first.
pub open spec fn be32(n: u32) -> Seq<u8> {
    seq![
        (n / 0x100_0000) as u8,
        (n / 0x1_0000 % 0x100) as u8,
        (n / 0x100 % 0x100) as u8,
        (n % 0x100) as u8,
    ]
}

/// The number whose four bytes, most significant first, stand in `s` at `at`.
pub open spec fn be32_at(s: Seq<u8>, at: int) -> u32 {
    (s[at] * 0x100_0000 + s[at + 1] * 0x1_0000 + s[at + 2] * 0x100 + s[at + 3]) as u32
}

/// Reading back what [`be32`] wrote gives the number again.
pub proof fn lemma_be32_at_be32(n: u32, s: Seq<u8>, at: int)
    requires
        0 <= at,
        at + 4 <= s.len(),
        s.subrange(at, at + 4) == be32(n),
    ensures
        be32_at(s, at) == n,
{
    let w = s.subrange(at, at + 4);
    assert(w[0] == s[at] && w[1] == s[at + 1] && w[2] == s[at + 2] && w[3] == s[at + 3]);
}

/// The digits of a number put together from four bytes are those bytes.
proof fn lemma_digits(b0: u8, b1: u8, b2: u8, b3: u8)
    ensures
        ({
            let n = (b0 * 0x100_0000 + b1 * 0x1_0000 + b2 * 0x100 + b3) as u32;
            &&& n == b0 * 0x100_0000 + b1 * 0x1_0000 + b2 * 0x100 + b3
            &&& n / 0x100_0000 == b0
            &&& n / 0x1_0000 % 0x100 == b1
            &&& n / 0x100 % 0x100 == b2
            &&& n % 0x100 == b3
        }),
{
    let m: u32 = (b0 * 0x100_0000 + b1 * 0x1_0000 + b2 * 0x100 + b3) as u32;
    assert(m == (b0 as u32) << 24 | (b1 as u32) << 16 | (b2 as u32) << 8 | (b3 as u32)) by (bit_vector)
        requires
            m == (b0 * 0x100_0000 + b1 * 0x1_0000 + b2 * 0x100 + b3) as u32,
    ;
    assert(m / 0x100_0000 == b0 && m / 0x1_0000 % 0x100 == b1 && m / 0x100 % 0x100 == b2 && m
        % 0x100 == b3) by (bit_vector)
        requires
            m == (b0 as u32) << 24 | (b1 as u32) << 16 | (b2 as u32) << 8 | (b3 as u32),
    ;
}

/// Writing what [`be32_at`] read gives the bytes again.
pub proof fn lemma_be32_be32_at(s: Seq<u8>, at: int)
    requires
        0 <= at,
        at + 4 <= s.len(),
    ensures
        be32(be32_at(s, at)) == s.subrange(at, at + 4),
{
    lemma_digits(s[at], s[at + 1], s[at + 2], s[at + 3]);
    assert(be32(be32_at(s, at)) =~= s.subrange(at, at + 4));
}

/// Appends the four bytes of `n`, most significant first.
pub fn push_be32(out: &mut Vec<u8>, n: u32)
    ensures
        final(out)@ == old(out)@ + be32(n),
{
    out.push((n / 0x100_0000) as u8);
    out.push((n / 0x1_0000 % 0x100) as u8);
    out.push((n / 0x100 % 0x100) as u8);
    out.push((n % 0x100) as u8);
    assert(out@ =~= old(out)@ + be32(n));
}

/// Reads the number whose four bytes, most significant first, stand at `at`.
pub fn read_be32(buf: &[u8], at: usize) -> (n: u32)
    requires
        at + 4 <= buf@.len(),
    ensures
        n == be32_at(buf@, at as int),
{
    let b0: u32 = buf[at] as u32;
    let b1: u32 = buf[at + 1] as u32;
    let b2: u32 = buf[at + 2] as u32;
    let b3: u32 = buf[at + 3] as u32;
    b0 * 0x100_0000 + b1 * 0x1_0000 + b2 * 0x100 + b3
}

/// What [`length_value_tuya`] makes of `input`: the data that the length
/// covers, and what follows it.
pub open spec fn length_value(input: Seq<u8>) -> core::result::Result<
    (Seq<u8>, Seq<u8>),
    ErrorKind,
> {
    if input.len() < 4 {
        Err(ErrorKind::ParseError(ParseErrorKind::Eof))
    } else if be32_at(input, 0) < 4 {
        Err(ErrorKind::ParseError(ParseErrorKind::LengthValue))
    } else if input.len() - 4 < be32_at(input, 0) - 4 {
        Err(ErrorKind::ParsingIncomplete)
    } else {
        Ok(
            (
                input.subrange(be32_at(input, 0) as int, input.len() as int),
                input.subrange(4, be32_at(input, 0) as int),
            ),
        )
    }
}

/// Reads a big-endian 32-bit length and splits off the data that it covers.
/// The length counts its own four bytes, so the data is four bytes shorter
/// than it says. Returns what follows the data, and the data.
///
/// Fails with `ParseError(Eof)` where `input` has no four bytes, with
/// `ParseError(LengthValue)` where the length is less than its own size, and
/// with `ParsingIncomplete` where `input` ends before the data does.
pub fn length_value_tuya(input: &[u8]) -> (res: Result<(&[u8], &[u8])>)
    ensures
        match res {
            Ok((rest, data)) => length_value(input@) == Ok::<_, ErrorKind>((rest@, data@)),
            Err(e) => length_value(input@) == Err::<(Seq<u8>, Seq<u8>), _>(e),
        },
{
    if input.len() < 4 {
        return Err(ErrorKind::ParseError(ParseErrorKind::Eof));
    }
    let declared = read_be32(input, 0);
    if declared < 4 {
        return Err(ErrorKind::ParseError(ParseErrorKind::LengthValue));
    }
    let length = (declared - 4) as usize;
    if input.len() - 4 < length {
        return Err(ErrorKind::ParsingIncomplete);
    }
    let data = slice_subrange(input, 4, 4 + length);
    let rest = slice_subrange(input, 4 + length, input.len());
    Ok((rest, data))
}

/// One frame as the grammar finds it: the two numbers of its header, what
/// stands between the length and the suffix, and the frame up to its last
/// eight bytes, which are the checksum and the suffix.
pub struct Envelope {
    pub seq_nr: u32,
    pub command: u32,
    pub inner: Seq<u8>,
    pub head: Seq<u8>,
}

/// What stands at the head of a buffer.
pub enum Scan {
    /// A frame of `len` bytes.
    Frame { envelope: Envelope, len: int },
    /// Something that is no frame.
    Mismatch(ParseErrorKind),
    /// The beginning of a frame that the buffer does not hold to its end.
    Short,
}

/// Matches one frame at the head of `s`.
#[verifier::opaque]
pub open spec fn scan_frame(s: Seq<u8>) -> Scan {
    if s.len() < 4 || s.subrange(0, 4) != prefix() {
        Scan::Mismatch(ParseErrorKind::Tag)
    } else if s.len() < 16 {
        Scan::Mismatch(ParseErrorKind::Eof)
    } else if be32_at(s, 12) < 4 {
        Scan::Mismatch(ParseErrorKind::LengthValue)
    } else {
        let end = 12 + be32_at(s, 12);
        if s.len() < end {
            Scan::Short
        } else if s.len() < end + 4 || s.subrange(end, end + 4) != suffix() {
            Scan::Mismatch(ParseErrorKind::Tag)
        } else {
            Scan::Frame {
                envelope: Envelope {
                    seq_nr: be32_at(s, 4),
                    command: be32_at(s, 8),
                    inner: s.subrange(16, end),
                    head: s.subrange(0, end - 4),
                },
                len: end + 4,
            }
        }
    }
}

/// Matches frames at the head of `s` for as long as there are any, behind the
/// frames `found` so far. Gives the frames, and what is left of `s`.
pub open spec fn scan_more(s: Seq<u8>, found: Seq<Envelope>) -> core::result::Result<
    (Seq<Envelope>, Seq<u8>),
    ErrorKind,
>
    decreases s.len(),
{
    match scan_frame(s) {
        Scan::Frame { envelope, len } => if 0 < len <= s.len() {
            scan_more(s.subrange(len, s.len() as int), found.push(envelope))
        } else {
            Ok((found, s))
        },
        Scan::Mismatch(_) => Ok((found, s)),
        Scan::Short => Err(ErrorKind::ParsingIncomplete),
    }
}

/// Matches one frame or more at the head of `s`. Gives the frames, and what is
/// left of `s`.
pub open spec fn scan_frames(s: Seq<u8>) -> core::result::Result<
    (Seq<Envelope>, Seq<u8>),
    ErrorKind,
> {
    match scan_frame(s) {
        Scan::Mismatch(kind) => Err(ErrorKind::ParseError(kind)),
        _ => scan_more(s, Seq::empty()),
    }
}

/// A frame at the head of `s` is matched, and matching goes on behind it.
pub proof fn lemma_scan_step(s: Seq<u8>, found: Seq<Envelope>)
    requires
        scan_frame(s) is Frame,
    ensures
        0 < scan_frame(s)->len <= s.len(),
        scan_more(s, found) == scan_more(
            s.subrange(scan_frame(s)->len, s.len() as int),
            found.push(scan_frame(s)->envelope),
        ),
{
    reveal(scan_frame);
}

/// Matching ends where no frame is at the head of `s`: well where something
/// else is there, with a failure where a frame begins that has no end.
pub proof fn lemma_scan_stop(s: Seq<u8>, found: Seq<Envelope>)
    requires
        !(scan_frame(s) is Frame),
    ensures
        scan_more(s, found) == if scan_frame(s) is Short {
            Err::<(Seq<Envelope>, Seq<u8>), _>(ErrorKind::ParsingIncomplete)
        } else {
            Ok::<_, ErrorKind>((found, s))
        },
{
}

/// Nothing is no frame.
pub proof fn lemma_scan_nothing()
    ensures
        scan_frame(Seq::empty()) == Scan::Mismatch(ParseErrorKind::Tag),
{
    reveal(scan_frame);
}

/// What a frame holds.
pub struct Frame {
    pub seq_nr: u32,
    pub command: u32,
    pub ret_code: Option<u8>,
    pub region: Seq<u8>,
}

/// Whether `inner` opens with a return code: a word whose upper 24 bits are
/// zero.
pub open spec fn has_ret_code(inner: Seq<u8>) -> bool {
    inner.len() >= 4 && inner[0] == 0 && inner[1] == 0 && inner[2] == 0
}

/// The number of bytes that the return code takes in `inner`.
pub open spec fn ret_len(inner: Seq<u8>) -> int {
    if has_ret_code(inner) {
        4
    } else {
        0
    }
}

/// Takes an envelope apart: the return code where there is one, the payload
/// region, and the checksum, which has to be the CRC-32 of the frame up to
/// the checksum.
#[verifier::opaque]
pub open spec fn open_envelope(envelope: Envelope) -> core::result::Result<Frame, ErrorKind> {
    let inner = envelope.inner;
    if inner.len() < ret_len(inner) + 4 {
        Err(ErrorKind::ParseError(ParseErrorKind::Eof))
    } else if crc32(envelope.head) != be32_at(inner, inner.len() - 4) {
        Err(ErrorKind::CRCError)
    } else {
        Ok(
            Frame {
                seq_nr: envelope.seq_nr,
                command: envelope.command,
                ret_code: if has_ret_code(inner) {
                    Some(inner[3])
                } else {
                    None
                },
                region: inner.subrange(ret_len(inner), inner.len() - 4),
            },
        )
    }
}

/// Takes the envelopes from index `from` on apart, in order, behind the
/// frames `opened` so far. The first that fails decides.
pub open spec fn open_from(envelopes: Seq<Envelope>, from: int, opened: Seq<Frame>)
    -> core::result::Result<Seq<Frame>, ErrorKind>
    decreases envelopes.len() - from,
{
    if from < 0 || from >= envelopes.len() {
        Ok(opened)
    } else {
        match open_envelope(envelopes[from]) {
            Ok(frame) => open_from(envelopes, from + 1, opened.push(frame)),
            Err(e) => Err(e),
        }
    }
}

/// The envelope at `from` is taken apart, and what follows it in turn, unless
/// it fails.
pub proof fn lemma_open_step(envelopes: Seq<Envelope>, from: int, opened: Seq<Frame>)
    requires
        0 <= from < envelopes.len(),
    ensures
        open_from(envelopes, from, opened) == match open_envelope(envelopes[from]) {
            Ok(frame) => open_from(envelopes, from + 1, opened.push(frame)),
            Err(e) => Err(e),
        },
{
}

/// Behind the last envelope nothing is left to take apart.
pub proof fn lemma_open_done(envelopes: Seq<Envelope>, opened: Seq<Frame>)
    ensures
        open_from(envelopes, envelopes.len() as int, opened) == Ok::<_, ErrorKind>(opened),
{
}

/// The frames at the head of `buf`, of which there has to be one at least,
/// and what is left of `buf` behind them. Every checksum has to hold.
pub open spec fn opened_frames(buf: Seq<u8>) -> core::result::Result<
    (Seq<u8>, Seq<Frame>),
    ErrorKind,
> {
    match scan_frames(buf) {
        Err(e) => Err(e),
        Ok((envelopes, rest)) => match open_from(envelopes, 0, Seq::empty()) {
            Err(e) => Err(e),
            Ok(frames) => Ok((rest, frames)),
        },
    }
}

/// The frames that `buf` consists of: those of [`opened_frames`], with
/// nothing left behind them.
pub open spec fn parsed_frames(buf: Seq<u8>) -> core::result::Result<Seq<Frame>, ErrorKind> {
    match opened_frames(buf) {
        Err(e) => Err(e),
        Ok((rest, frames)) => if rest.len() > 0 {
            Err(ErrorKind::BufferNotCompletelyParsedError)
        } else {
            Ok(frames)
        },
    }
}

/// The return code as it stands in a frame: one word, or nothing.
pub open spec fn ret_word(ret_code: Option<u8>) -> Seq<u8> {
    match ret_code {
        Some(code) => be32(code as u32),
        None => Seq::empty(),
    }
}

/// A frame up to the checksum.
pub open spec fn frame_head(seq_nr: u32, command: u8, ret_code: Option<u8>, region: Seq<u8>) -> Seq<
    u8,
> {
    prefix() + be32(seq_nr) + be32(command as u32) + be32(
        (ret_word(ret_code).len() + region.len() + 8) as u32,
    ) + ret_word(ret_code) + region
}

/// A frame whose checksum field holds `sum`.
pub open spec fn frame_with_sum(
    seq_nr: u32,
    command: u8,
    ret_code: Option<u8>,
    region: Seq<u8>,
    sum: Seq<u8>,
) -> Seq<u8> {
    frame_head(seq_nr, command, ret_code, region) + sum + suffix()
}

/// The bytes of a frame.
pub open spec fn frame_bytes(seq_nr: u32, command: u8, ret_code: Option<u8>, region: Seq<u8>) -> Seq<
    u8,
> {
    frame_with_sum(
        seq_nr,
        command,
        ret_code,
        region,
        be32(crc32(frame_head(seq_nr, command, ret_code, region))),
    )
}

/// Whether a frame without a return code is read as one with a return code:
/// the first word behind its length, which the region and the checksum make
/// up, has no bit set in its upper 24.
pub open spec fn mistaken_ret_code(ret_code: Option<u8>, region: Seq<u8>, sum: Seq<u8>) -> bool {
    ret_code is None && has_ret_code(region + sum)
}

/// Whether a region of this length fits into a frame with this return code:
/// the length field has 32 bits.
pub open spec fn fits_frame(ret_code: Option<u8>, region_len: nat) -> bool {
    ret_word(ret_code).len() + region_len + 8 <= u32::MAX
}

/// Where a frame that was found in a buffer keeps what stands between its
/// length and its suffix.
pub struct Span {
    pub seq_nr: u32,
    pub command: u32,
    pub start: usize,
    pub end: usize,
}

impl Span {
    /// The envelope that the span marks in `buf`.
    pub open spec fn envelope(self, buf: Seq<u8>) -> Envelope {
        Envelope {
            seq_nr: self.seq_nr,
            command: self.command,
            inner: buf.subrange(self.start as int, self.end as int),
            head: buf.subrange(self.start - 16, self.end - 4),
        }
    }
}

/// Matches one frame in `buf` at `at`. Gives the frame, and the index behind
/// it.
pub fn match_frame(buf: &[u8], at: usize) -> (res: Result<(Span, usize)>)
    requires
        at <= buf@.len(),
    ensures
        match scan_frame(buf@.subrange(at as int, buf@.len() as int)) {
            Scan::Frame { envelope, len } => res matches Ok((span, next)) && span.envelope(buf@)
                == envelope && next == at + len && at + 16 <= span.start <= span.end
                && span.end + 4 == next && next <= buf@.len(),
            Scan::Mismatch(kind) => res matches Err(ErrorKind::ParseError(k)) && k == kind,
            Scan::Short => res matches Err(ErrorKind::ParsingIncomplete),
        },
{
    reveal(scan_frame);
    let n = buf.len();
    let ghost s = buf@.subrange(at as int, n as int);
    if n - at < 4 || buf[at] != 0x00 || buf[at + 1] != 0x00 || buf[at + 2] != 0x55 || buf[at + 3]
        != 0xaa {
        assert(s.len() >= 4 ==> s.subrange(0, 4)[0] == s[0] && s.subrange(0, 4)[1] == s[1]
            && s.subrange(0, 4)[2] == s[2] && s.subrange(0, 4)[3] == s[3]);
        return Err(ErrorKind::ParseError(ParseErrorKind::Tag));
    }
    assert(s.subrange(0, 4) =~= prefix());
    if n - at < 12 {
        return Err(ErrorKind::ParseError(ParseErrorKind::Eof));
    }
    let seq_nr = read_be32(buf, at + 4);
    let command = read_be32(buf, at + 8);
    let ghost input = buf@.subrange(at + 12, n as int);
    assert(input.len() >= 4 ==> be32_at(input, 0) == be32_at(s, 12));
    match length_value_tuya(slice_subrange(buf, at + 12, n)) {
        Err(e) => Err(e),
        Ok((rest, data)) => {
            let ghost end = 12 + be32_at(s, 12);
            assert(data@ =~= s.subrange(16, end));
            assert(rest@ =~= s.subrange(end, s.len() as int));
            if rest.len() < 4 || rest[0] != 0x00 || rest[1] != 0x00 || rest[2] != 0xaa || rest[3]
                != 0x55 {
                assert(rest@.len() >= 4 ==> s.subrange(end, end + 4)[0] == rest@[0] && s.subrange(
                    end,
                    end + 4,
                )[1] == rest@[1] && s.subrange(end, end + 4)[2] == rest@[2] && s.subrange(
                    end,
                    end + 4,
                )[3] == rest@[3]);
                return Err(ErrorKind::ParseError(ParseErrorKind::Tag));
            }
            assert(s.subrange(end, end + 4) =~= suffix());
            let start = at + 16;
            let end = start + data.len();
            assert(buf@.subrange(start as int, end as int) =~= data@);
            assert(buf@.subrange(start - 16, end - 4) =~= s.subrange(0, 12 + be32_at(s, 12) - 4));
            Ok((Span { seq_nr, command, start, end }, end + 4))
        },
    }
}

} // verus!
