//! What holds of encoding and parsing taken together.
use vstd::prelude::*;
use crate::cipher::aes_128_ecb_encrypted;
use crate::cipher::digest12;
use crate::crc::crc32;
use crate::error::ErrorKind;
use crate::error::ParseErrorKind;
use crate::frame::be32;
use crate::frame::be32_at;
use crate::frame::fits_frame;
use crate::frame::frame_bytes;
use crate::frame::frame_head;
use crate::frame::frame_with_sum;
use crate::frame::lemma_be32_at_be32;
use crate::frame::lemma_be32_be32_at;
use crate::frame::lemma_open_done;
use crate::frame::lemma_open_step;
use crate::frame::lemma_scan_nothing;
use crate::frame::lemma_scan_step;
use crate::frame::lemma_scan_stop;
use crate::frame::mistaken_ret_code;
use crate::frame::open_envelope;
use crate::frame::open_from;
use crate::frame::opened_frames;
use crate::frame::parsed_frames;
use crate::frame::prefix;
use crate::frame::ret_word;
use crate::frame::scan_frame;
use crate::frame::scan_frames;
use crate::frame::scan_more;
use crate::frame::suffix;
use crate::frame::Envelope;
use crate::frame::Frame;
use crate::frame::Scan;
use crate::mesparse::decoded_payload;
use crate::mesparse::encoded;
use crate::mesparse::is_query;
use crate::mesparse::lemma_of_code_code;
use crate::mesparse::messages_of;
use crate::mesparse::parsed;
use crate::mesparse::parsed_messages;
use crate::mesparse::payload_region;
use crate::mesparse::CommandType;
use crate::mesparse::MessageView;
use crate::mesparse::TuyaVersion;

verus! {

/// The envelope that the grammar finds in a frame.
pub open spec fn envelope_of(
    seq_nr: u32,
    command: u8,
    ret_code: Option<u8>,
    region: Seq<u8>,
    sum: Seq<u8>,
) -> Envelope {
    Envelope {
        seq_nr,
        command: command as u32,
        inner: ret_word(ret_code) + region + sum,
        head: frame_head(seq_nr, command, ret_code, region),
    }
}

/// The grammar finds a frame at the head of a buffer that begins with one,
/// whatever follows it and whatever its checksum field holds.
pub proof fn lemma_scan_own_frame(
    seq_nr: u32,
    command: u8,
    ret_code: Option<u8>,
    region: Seq<u8>,
    sum: Seq<u8>,
    tail: Seq<u8>,
)
    requires
        fits_frame(ret_code, region.len()),
        sum.len() == 4,
    ensures
        scan_frame(frame_with_sum(seq_nr, command, ret_code, region, sum) + tail) == (Scan::Frame {
            envelope: envelope_of(seq_nr, command, ret_code, region, sum),
            len: frame_with_sum(seq_nr, command, ret_code, region, sum).len() as int,
        }),
        frame_with_sum(seq_nr, command, ret_code, region, sum).len() == 24 + ret_word(
            ret_code,
        ).len() + region.len(),
{
    reveal(scan_frame);
    let f = frame_with_sum(seq_nr, command, ret_code, region, sum);
    let s = f + tail;
    let declared = (ret_word(ret_code).len() + region.len() + 8) as u32;
    assert(s.subrange(0, 4) =~= prefix());
    assert(s.subrange(4, 8) =~= be32(seq_nr));
    assert(s.subrange(8, 12) =~= be32(command as u32));
    assert(s.subrange(12, 16) =~= be32(declared));
    lemma_be32_at_be32(seq_nr, s, 4);
    lemma_be32_at_be32(command as u32, s, 8);
    lemma_be32_at_be32(declared, s, 12);
    let end = 12 + declared;
    assert(s.subrange(end, end + 4) =~= suffix());
    assert(s.subrange(16, end) =~= ret_word(ret_code) + region + sum);
    assert(s.subrange(0, end - 4) =~= frame_head(seq_nr, command, ret_code, region));
}

/// Four bytes are the bytes of a number exactly where they read as that
/// number.
pub proof fn lemma_sum_is_checksum(n: u32, sum: Seq<u8>)
    requires
        sum.len() == 4,
    ensures
        be32_at(sum, 0) == n <==> sum == be32(n),
{
    lemma_be32_be32_at(sum, 0);
    assert(sum.subrange(0, 4) =~= sum);
    if sum == be32(n) {
        lemma_be32_at_be32(n, sum, 0);
    }
}

/// The envelope of a frame opens to what was framed where the checksum field
/// holds the checksum of the frame, and fails with `CRCError` where it holds
/// anything else, unless a frame without a return code is mistaken for one
/// with it.
pub proof fn lemma_open_own_envelope(
    seq_nr: u32,
    command: u8,
    ret_code: Option<u8>,
    region: Seq<u8>,
    sum: Seq<u8>,
)
    requires
        sum.len() == 4,
        !mistaken_ret_code(ret_code, region, sum),
    ensures
        open_envelope(envelope_of(seq_nr, command, ret_code, region, sum)) == if sum == be32(
            crc32(frame_head(seq_nr, command, ret_code, region)),
        ) {
            Ok::<_, ErrorKind>(Frame { seq_nr, command: command as u32, ret_code, region })
        } else {
            Err::<Frame, _>(ErrorKind::CRCError)
        },
{
    reveal(open_envelope);
    let inner = ret_word(ret_code) + region + sum;
    assert(be32_at(inner, inner.len() - 4) == be32_at(sum, 0));
    lemma_sum_is_checksum(crc32(frame_head(seq_nr, command, ret_code, region)), sum);
    match ret_code {
        Some(code) => {
            assert(inner.subrange(4, inner.len() - 4) =~= region);
        },
        None => {
            assert(inner =~= region + sum);
            assert(inner.subrange(0, inner.len() - 4) =~= region);
        },
    }
}

/// A buffer that is one frame holds one envelope and nothing behind it.
pub proof fn lemma_scan_one_frame(
    seq_nr: u32,
    command: u8,
    ret_code: Option<u8>,
    region: Seq<u8>,
    sum: Seq<u8>,
)
    requires
        fits_frame(ret_code, region.len()),
        sum.len() == 4,
    ensures
        scan_frames(frame_with_sum(seq_nr, command, ret_code, region, sum)) == Ok::<_, ErrorKind>(
            (seq![envelope_of(seq_nr, command, ret_code, region, sum)], Seq::<u8>::empty()),
        ),
{
    let f = frame_with_sum(seq_nr, command, ret_code, region, sum);
    let envelope = envelope_of(seq_nr, command, ret_code, region, sum);
    let found = Seq::<Envelope>::empty().push(envelope);
    lemma_scan_own_frame(seq_nr, command, ret_code, region, sum, Seq::empty());
    assert(f + Seq::<u8>::empty() =~= f);
    assert(f.subrange(f.len() as int, f.len() as int) =~= Seq::<u8>::empty());
    lemma_scan_step(f, Seq::empty());
    lemma_scan_nothing();
    lemma_scan_stop(Seq::empty(), found);
    assert(found =~= seq![envelope]);
}

/// Parsing one frame gives what was framed where the checksum field holds the
/// checksum, and fails with `CRCError` where it holds anything else, unless a
/// frame without a return code is mistaken for one with it.
pub proof fn lemma_parse_frame_with_sum(
    seq_nr: u32,
    command: u8,
    ret_code: Option<u8>,
    region: Seq<u8>,
    sum: Seq<u8>,
)
    requires
        fits_frame(ret_code, region.len()),
        sum.len() == 4,
    ensures
        !mistaken_ret_code(ret_code, region, sum) ==> parsed_frames(
            frame_with_sum(seq_nr, command, ret_code, region, sum),
        ) == if sum == be32(crc32(frame_head(seq_nr, command, ret_code, region))) {
            Ok::<_, ErrorKind>(seq![Frame { seq_nr, command: command as u32, ret_code, region }])
        } else {
            Err::<Seq<Frame>, _>(ErrorKind::CRCError)
        },
{
    if !mistaken_ret_code(ret_code, region, sum) {
        let found = seq![envelope_of(seq_nr, command, ret_code, region, sum)];
        lemma_scan_one_frame(seq_nr, command, ret_code, region, sum);
        lemma_open_own_envelope(seq_nr, command, ret_code, region, sum);
        let frame = Frame { seq_nr, command: command as u32, ret_code, region };
        lemma_open_step(found, 0, Seq::empty());
        lemma_open_done(found, Seq::<Frame>::empty().push(frame));
        assert(Seq::<Frame>::empty().push(frame) =~= seq![frame]);
    }
}

/// Parsing one frame gives what was framed, unless a frame without a return
/// code is mistaken for one with it.
pub proof fn lemma_parse_frame(seq_nr: u32, command: u8, ret_code: Option<u8>, region: Seq<u8>)
    requires
        fits_frame(ret_code, region.len()),
    ensures
        !mistaken_ret_code(
            ret_code,
            region,
            be32(crc32(frame_head(seq_nr, command, ret_code, region))),
        ) ==> parsed_frames(frame_bytes(seq_nr, command, ret_code, region)) == Ok::<_, ErrorKind>(
            seq![Frame { seq_nr, command: command as u32, ret_code, region }],
        ),
{
    lemma_parse_frame_with_sum(
        seq_nr,
        command,
        ret_code,
        region,
        be32(crc32(frame_head(seq_nr, command, ret_code, region))),
    );
}

/// A frame without a return code whose region, with the checksum behind it,
/// opens with three zero bytes is parsed as a frame with a return code: the
/// fourth byte is taken for the code, and the region begins behind it. Where
/// the region has no four bytes, parsing fails with `ParseError(Eof)`.
pub proof fn lemma_parse_mistaken_frame(seq_nr: u32, command: u8, region: Seq<u8>)
    requires
        fits_frame(None, region.len()),
    ensures
        mistaken_ret_code(None, region, be32(crc32(frame_head(seq_nr, command, None, region))))
            ==> parsed_frames(frame_bytes(seq_nr, command, None, region)) == if region.len()
            >= 4 {
            Ok::<_, ErrorKind>(
                seq![
                    Frame {
                        seq_nr,
                        command: command as u32,
                        ret_code: Some(region[3]),
                        region: region.subrange(4, region.len() as int),
                    },
                ],
            )
        } else {
            Err::<Seq<Frame>, _>(ErrorKind::ParseError(ParseErrorKind::Eof))
        },
{
    let head = frame_head(seq_nr, command, None, region);
    let sum = be32(crc32(head));
    if mistaken_ret_code(None, region, sum) {
        let envelope = envelope_of(seq_nr, command, None, region, sum);
        let found = seq![envelope];
        lemma_scan_one_frame(seq_nr, command, None, region, sum);
        let inner = envelope.inner;
        assert(inner =~= region + sum);
        lemma_sum_is_checksum(crc32(head), sum);
        assert(be32_at(inner, inner.len() - 4) == be32_at(sum, 0));
        reveal(open_envelope);
        lemma_open_step(found, 0, Seq::empty());
        if region.len() >= 4 {
            let frame = Frame {
                seq_nr,
                command: command as u32,
                ret_code: Some(region[3]),
                region: region.subrange(4, region.len() as int),
            };
            assert(inner.subrange(4, inner.len() - 4) =~= region.subrange(4, region.len() as int));
            lemma_open_done(found, Seq::<Frame>::empty().push(frame));
            assert(Seq::<Frame>::empty().push(frame) =~= seq![frame]);
        }
    }
}

/// A frame whose checksum field holds anything but the checksum fails to
/// parse with `CRCError`, unless the field makes a frame without a return
/// code look like one with it.
pub proof fn lemma_wrong_sum(
    version: TuyaVersion,
    key: Seq<u8>,
    seq_nr: u32,
    command: u8,
    ret_code: Option<u8>,
    region: Seq<u8>,
    sum: Seq<u8>,
)
    requires
        fits_frame(ret_code, region.len()),
        sum.len() == 4,
    ensures
        sum != be32(crc32(frame_head(seq_nr, command, ret_code, region))) && !mistaken_ret_code(
            ret_code,
            region,
            sum,
        ) ==> parsed(version, key, frame_with_sum(seq_nr, command, ret_code, region, sum)) == Err::<
            Seq<MessageView>,
            _,
        >(ErrorKind::CRCError),
{
    lemma_parse_frame_with_sum(seq_nr, command, ret_code, region, sum);
}

/// A frame that is cut off anywhere before its end fails to parse, with
/// `ParseError` or with `ParsingIncomplete`.
pub proof fn lemma_truncated_frame(
    version: TuyaVersion,
    key: Seq<u8>,
    seq_nr: u32,
    command: u8,
    ret_code: Option<u8>,
    region: Seq<u8>,
    sum: Seq<u8>,
    len: int,
)
    requires
        fits_frame(ret_code, region.len()),
        sum.len() == 4,
        0 <= len < frame_with_sum(seq_nr, command, ret_code, region, sum).len(),
    ensures
        match parsed(
            version,
            key,
            frame_with_sum(seq_nr, command, ret_code, region, sum).subrange(0, len),
        ) {
            Err(ErrorKind::ParseError(_)) => true,
            Err(ErrorKind::ParsingIncomplete) => true,
            _ => false,
        },
{
    reveal(scan_frame);
    let f = frame_with_sum(seq_nr, command, ret_code, region, sum);
    let t = f.subrange(0, len);
    let declared = (ret_word(ret_code).len() + region.len() + 8) as u32;
    lemma_scan_own_frame(seq_nr, command, ret_code, region, sum, Seq::empty());
    if len >= 16 {
        assert(t.subrange(12, 16) =~= be32(declared));
        lemma_be32_at_be32(declared, t, 12);
    }
    assert(!(scan_frame(t) is Frame));
    lemma_scan_stop(t, Seq::empty());
}

/// A frame at the head of a buffer stays the same frame when more bytes
/// follow the buffer.
pub proof fn lemma_scan_frame_extends(s: Seq<u8>, more: Seq<u8>)
    requires
        scan_frame(s) is Frame,
    ensures
        scan_frame(s + more) == scan_frame(s),
{
    reveal(scan_frame);
    let end = 12 + be32_at(s, 12);
    let t = s + more;
    assert(t.subrange(0, 4) =~= s.subrange(0, 4));
    assert(t.subrange(end, end + 4) =~= s.subrange(end, end + 4));
    assert(t.subrange(16, end) =~= s.subrange(16, end));
    assert(t.subrange(0, end - 4) =~= s.subrange(0, end - 4));
}

/// The frames found before matching begins stand in front of those that
/// matching finds, and change nothing else.
pub proof fn lemma_scan_more_found(s: Seq<u8>, found: Seq<Envelope>)
    ensures
        scan_more(s, found) == match scan_more(s, Seq::empty()) {
            Ok((envelopes, rest)) => Ok::<_, ErrorKind>((found + envelopes, rest)),
            Err(e) => Err(e),
        },
    decreases s.len(),
{
    if scan_frame(s) is Frame {
        let envelope = scan_frame(s)->envelope;
        let rest = s.subrange(scan_frame(s)->len, s.len() as int);
        let one = Seq::<Envelope>::empty().push(envelope);
        lemma_scan_step(s, found);
        lemma_scan_step(s, Seq::empty());
        lemma_scan_more_found(rest, found.push(envelope));
        lemma_scan_more_found(rest, one);
        match scan_more(rest, Seq::empty()) {
            Ok((envelopes, _)) => {
                assert(found.push(envelope) + envelopes =~= found + (one + envelopes));
            },
            Err(_) => {},
        }
    } else {
        lemma_scan_stop(s, found);
        lemma_scan_stop(s, Seq::empty());
        assert(found + Seq::<Envelope>::empty() =~= found);
    }
}

/// Matching that comes to the end of a buffer goes on in what is joined to
/// the buffer.
pub proof fn lemma_scan_more_joined(first: Seq<u8>, second: Seq<u8>, found: Seq<Envelope>)
    requires
        scan_more(first, found) is Ok,
        scan_more(first, found)->Ok_0.1.len() == 0,
    ensures
        scan_more(first + second, found) == scan_more(second, scan_more(first, found)->Ok_0.0),
    decreases first.len(),
{
    if scan_frame(first) is Frame {
        let envelope = scan_frame(first)->envelope;
        let len = scan_frame(first)->len;
        let rest = first.subrange(len, first.len() as int);
        lemma_scan_step(first, found);
        lemma_scan_frame_extends(first, second);
        lemma_scan_step(first + second, found);
        assert((first + second).subrange(len, (first + second).len() as int) =~= rest + second);
        lemma_scan_more_joined(rest, second, found.push(envelope));
    } else {
        lemma_scan_stop(first, found);
        assert(first + second =~= second);
    }
}

/// The frames opened before taking apart begins stand in front of those that
/// it opens, and change nothing else.
pub proof fn lemma_open_opened(envelopes: Seq<Envelope>, from: int, opened: Seq<Frame>)
    requires
        0 <= from <= envelopes.len(),
    ensures
        open_from(envelopes, from, opened) == match open_from(envelopes, from, Seq::empty()) {
            Ok(frames) => Ok::<_, ErrorKind>(opened + frames),
            Err(e) => Err(e),
        },
    decreases envelopes.len() - from,
{
    if from < envelopes.len() {
        lemma_open_step(envelopes, from, opened);
        lemma_open_step(envelopes, from, Seq::empty());
        match open_envelope(envelopes[from]) {
            Ok(frame) => {
                let one = Seq::<Frame>::empty().push(frame);
                lemma_open_opened(envelopes, from + 1, opened.push(frame));
                lemma_open_opened(envelopes, from + 1, one);
                match open_from(envelopes, from + 1, Seq::empty()) {
                    Ok(frames) => {
                        assert(opened.push(frame) + frames =~= opened + (one + frames));
                    },
                    Err(_) => {},
                }
            },
            Err(_) => {},
        }
    } else {
        lemma_open_done(envelopes, opened);
        lemma_open_done(envelopes, Seq::empty());
        assert(opened + Seq::<Frame>::empty() =~= opened);
    }
}

/// Taking two lists of envelopes apart, one joined to the other, goes through
/// the first and then through the second.
pub proof fn lemma_open_joined(
    first: Seq<Envelope>,
    second: Seq<Envelope>,
    from: int,
    opened: Seq<Frame>,
)
    requires
        0 <= from <= first.len() + second.len(),
    ensures
        open_from(first + second, from, opened) == if from < first.len() {
            match open_from(first, from, opened) {
                Ok(frames) => open_from(second, 0, frames),
                Err(e) => Err(e),
            }
        } else {
            open_from(second, from - first.len(), opened)
        },
    decreases first.len() + second.len() - from,
{
    let both = first + second;
    if from < both.len() {
        lemma_open_step(both, from, opened);
        if from < first.len() {
            lemma_open_step(first, from, opened);
            match open_envelope(first[from]) {
                Ok(frame) => {
                    lemma_open_joined(first, second, from + 1, opened.push(frame));
                    if from + 1 == first.len() {
                        lemma_open_done(first, opened.push(frame));
                    }
                },
                Err(_) => {},
            }
        } else {
            lemma_open_step(second, from - first.len(), opened);
            match open_envelope(second[from - first.len()]) {
                Ok(frame) => {
                    lemma_open_joined(first, second, from + 1, opened.push(frame));
                },
                Err(_) => {},
            }
        }
    } else {
        lemma_open_done(both, opened);
        lemma_open_done(second, opened);
    }
}

/// A buffer that parses, with more bytes joined to it, holds its own frames
/// and then what the grammar finds in those bytes.
pub proof fn lemma_scan_joined(first: Seq<u8>, second: Seq<u8>)
    requires
        scan_frames(first) is Ok,
        scan_frames(first)->Ok_0.1.len() == 0,
    ensures
        scan_frames(first + second) == match scan_more(second, Seq::empty()) {
            Ok((envelopes, rest)) => Ok::<_, ErrorKind>(
                (scan_frames(first)->Ok_0.0 + envelopes, rest),
            ),
            Err(e) => Err(e),
        },
{
    lemma_scan_frame_extends(first, second);
    lemma_scan_more_joined(first, second, Seq::empty());
    lemma_scan_more_found(second, scan_frames(first)->Ok_0.0);
}

/// Parsing two buffers that parse, one joined to the other, gives the frames
/// of the first and then the frames of the second.
pub proof fn lemma_parse_joined_frames(first: Seq<u8>, second: Seq<u8>)
    ensures
        parsed_frames(first) is Ok && parsed_frames(second) is Ok ==> parsed_frames(first + second)
            == Ok::<_, ErrorKind>(parsed_frames(first)->Ok_0 + parsed_frames(second)->Ok_0),
{
    if parsed_frames(first) is Ok && parsed_frames(second) is Ok {
        let found1 = scan_frames(first)->Ok_0.0;
        let found2 = scan_frames(second)->Ok_0.0;
        lemma_scan_joined(first, second);
        lemma_open_joined(found1, found2, 0, Seq::empty());
        if found1.len() == 0 {
            lemma_open_done(found1, Seq::empty());
        }
        lemma_open_opened(found2, 0, parsed_frames(first)->Ok_0);
    }
}

/// Parsing a buffer that parses, with bytes joined to it that do not begin
/// like a frame, gives the frames of the buffer and hands the bytes back;
/// where the bytes are the beginning of a frame, it fails with
/// `ParsingIncomplete`.
pub proof fn lemma_parse_frames_and_tail(first: Seq<u8>, tail: Seq<u8>)
    ensures
        parsed_frames(first) is Ok && scan_frame(tail) is Mismatch ==> opened_frames(first + tail)
            == Ok::<_, ErrorKind>((tail, parsed_frames(first)->Ok_0)),
        parsed_frames(first) is Ok && scan_frame(tail) is Short ==> opened_frames(first + tail)
            == Err::<(Seq<u8>, Seq<Frame>), _>(ErrorKind::ParsingIncomplete),
{
    if parsed_frames(first) is Ok && !(scan_frame(tail) is Frame) {
        let found = scan_frames(first)->Ok_0.0;
        lemma_scan_joined(first, tail);
        lemma_scan_stop(tail, Seq::empty());
        assert(found + Seq::<Envelope>::empty() =~= found);
    }
}

/// Bytes that do not open with the prefix do not begin like a frame.
pub proof fn lemma_scan_no_prefix(s: Seq<u8>)
    requires
        s.len() < 4 || s.subrange(0, 4) != prefix(),
    ensures
        scan_frame(s) == Scan::Mismatch(ParseErrorKind::Tag),
{
    reveal(scan_frame);
}

/// A frame with something behind it that does not begin like a frame fails to
/// parse with `BufferNotCompletelyParsedError`; with the beginning of a frame
/// behind it, it fails with `ParsingIncomplete`.
pub proof fn lemma_trailing_bytes(
    version: TuyaVersion,
    key: Seq<u8>,
    seq_nr: u32,
    command: u8,
    ret_code: Option<u8>,
    region: Seq<u8>,
    tail: Seq<u8>,
)
    requires
        fits_frame(ret_code, region.len()),
        tail.len() > 0,
    ensures
        scan_frame(tail) is Short ==> parsed(
            version,
            key,
            frame_bytes(seq_nr, command, ret_code, region) + tail,
        ) == Err::<Seq<MessageView>, _>(ErrorKind::ParsingIncomplete),
        scan_frame(tail) is Mismatch && !mistaken_ret_code(
            ret_code,
            region,
            be32(crc32(frame_head(seq_nr, command, ret_code, region))),
        ) ==> parsed(version, key, frame_bytes(seq_nr, command, ret_code, region) + tail) == Err::<
            Seq<MessageView>,
            _,
        >(ErrorKind::BufferNotCompletelyParsedError),
{
    let first = frame_bytes(seq_nr, command, ret_code, region);
    lemma_parse_frame(seq_nr, command, ret_code, region);
    lemma_parse_frames_and_tail(first, tail);
    if scan_frame(tail) is Short {
        lemma_scan_one_frame(
            seq_nr,
            command,
            ret_code,
            region,
            be32(crc32(frame_head(seq_nr, command, ret_code, region))),
        );
        lemma_scan_joined(first, tail);
        lemma_scan_stop(tail, Seq::empty());
    }
}

/// Parsing two frames, one behind the other, gives what was framed, in that
/// order, unless a frame without a return code is mistaken for one with it.
pub proof fn lemma_parse_two_frames(
    seq_nr1: u32,
    command1: u8,
    ret_code1: Option<u8>,
    region1: Seq<u8>,
    seq_nr2: u32,
    command2: u8,
    ret_code2: Option<u8>,
    region2: Seq<u8>,
)
    requires
        fits_frame(ret_code1, region1.len()),
        fits_frame(ret_code2, region2.len()),
    ensures
        !mistaken_ret_code(
            ret_code1,
            region1,
            be32(crc32(frame_head(seq_nr1, command1, ret_code1, region1))),
        ) && !mistaken_ret_code(
            ret_code2,
            region2,
            be32(crc32(frame_head(seq_nr2, command2, ret_code2, region2))),
        ) ==> parsed_frames(
            frame_bytes(seq_nr1, command1, ret_code1, region1) + frame_bytes(
                seq_nr2,
                command2,
                ret_code2,
                region2,
            ),
        ) == Ok::<_, ErrorKind>(
            seq![
                Frame {
                    seq_nr: seq_nr1,
                    command: command1 as u32,
                    ret_code: ret_code1,
                    region: region1,
                },
                Frame {
                    seq_nr: seq_nr2,
                    command: command2 as u32,
                    ret_code: ret_code2,
                    region: region2,
                },
            ],
        ),
{
    let frame1 = Frame {
        seq_nr: seq_nr1,
        command: command1 as u32,
        ret_code: ret_code1,
        region: region1,
    };
    let frame2 = Frame {
        seq_nr: seq_nr2,
        command: command2 as u32,
        ret_code: ret_code2,
        region: region2,
    };
    let first = frame_bytes(seq_nr1, command1, ret_code1, region1);
    let second = frame_bytes(seq_nr2, command2, ret_code2, region2);
    lemma_parse_frame(seq_nr1, command1, ret_code1, region1);
    lemma_parse_frame(seq_nr2, command2, ret_code2, region2);
    lemma_joined_singles(first, frame1, second, frame2);
}

/// Two buffers of one frame each, joined, parse into the two frames.
proof fn lemma_joined_singles(first: Seq<u8>, frame1: Frame, second: Seq<u8>, frame2: Frame)
    ensures
        parsed_frames(first) == Ok::<_, ErrorKind>(seq![frame1]) && parsed_frames(second) == Ok::<
            _,
            ErrorKind,
        >(seq![frame2]) ==> parsed_frames(first + second) == Ok::<_, ErrorKind>(
            seq![frame1, frame2],
        ),
{
    lemma_parse_joined_frames(first, second);
    assert(seq![frame1] + seq![frame2] =~= seq![frame1, frame2]);
}

/// The messages of frames joined to frames are the messages of the first and
/// then those of the second.
pub proof fn lemma_messages_of_joined(
    version: TuyaVersion,
    key: Seq<u8>,
    first: Seq<Frame>,
    second: Seq<Frame>,
)
    ensures
        messages_of(version, key, first + second) == messages_of(version, key, first)
            + messages_of(version, key, second),
{
    assert(messages_of(version, key, first + second) =~= messages_of(version, key, first)
        + messages_of(version, key, second));
}

/// Parsing two buffers that parse, one joined to the other, gives the
/// messages of the first and then the messages of the second.
pub proof fn lemma_parse_joined(
    version: TuyaVersion,
    key: Seq<u8>,
    first: Seq<u8>,
    second: Seq<u8>,
)
    ensures
        parsed(version, key, first) is Ok && parsed(version, key, second) is Ok ==> parsed(
            version,
            key,
            first + second,
        ) == Ok::<_, ErrorKind>(
            parsed(version, key, first)->Ok_0 + parsed(version, key, second)->Ok_0,
        ),
{
    if parsed(version, key, first) is Ok && parsed(version, key, second) is Ok {
        lemma_parse_joined_frames(first, second);
        lemma_messages_of_joined(
            version,
            key,
            parsed_frames(first)->Ok_0,
            parsed_frames(second)->Ok_0,
        );
    }
}

/// A frame without its last eight bytes is the frame up to the checksum.
pub proof fn lemma_head_of_frame(seq_nr: u32, command: u8, ret_code: Option<u8>, region: Seq<u8>)
    ensures
        frame_bytes(seq_nr, command, ret_code, region).len() == frame_head(
            seq_nr,
            command,
            ret_code,
            region,
        ).len() + 8,
        frame_bytes(seq_nr, command, ret_code, region).subrange(
            0,
            frame_bytes(seq_nr, command, ret_code, region).len() - 8,
        ) == frame_head(seq_nr, command, ret_code, region),
{
    let f = frame_bytes(seq_nr, command, ret_code, region);
    assert(f.subrange(0, f.len() - 8) =~= frame_head(seq_nr, command, ret_code, region));
}

/// The checksum field of the frame that carries the header of `message`
/// around `region`.
pub open spec fn sum_of(message: MessageView, region: Seq<u8>) -> Seq<u8>
    recommends
        message.command is Some,
{
    be32(
        crc32(
            frame_head(
                message.wire_seq_nr(),
                message.command->0.code(),
                message.ret_code,
                region,
            ),
        ),
    )
}

/// Whether the frame that carries the header of `message` around `region` can
/// be put together, and is not mistaken for a frame with a return code when
/// it has none.
pub open spec fn travels_with(message: MessageView, region: Seq<u8>) -> bool
    recommends
        message.command is Some,
{
    fits_frame(message.ret_code, region.len()) && !mistaken_ret_code(
        message.ret_code,
        region,
        sum_of(message, region),
    )
}

/// What a message arrives as whose frame carries `region`: its payload is
/// what the region decodes to, and it has a sequence number.
pub open spec fn arrives_with(
    version: TuyaVersion,
    key: Seq<u8>,
    message: MessageView,
    region: Seq<u8>,
) -> MessageView {
    MessageView {
        payload: decoded_payload(version, key, region),
        command: message.command,
        seq_nr: Some(message.wire_seq_nr()),
        ret_code: message.ret_code,
    }
}

/// Whether the frame for `message` can be put together and is not mistaken
/// for a frame with a return code when it has none.
pub open spec fn travels(version: TuyaVersion, key: Seq<u8>, message: MessageView, encrypt: bool)
    -> bool
    recommends
        message.command is Some,
{
    match payload_region(version, key, message.command, encrypt, message.payload) {
        Some(region) => travels_with(message, region),
        None => false,
    }
}

/// What an encoded message arrives as: its payload is what the payload region
/// decodes to, and it has a sequence number.
pub open spec fn arrives_as(
    version: TuyaVersion,
    key: Seq<u8>,
    message: MessageView,
    encrypt: bool,
) -> MessageView {
    arrives_with(
        version,
        key,
        message,
        payload_region(version, key, message.command, encrypt, message.payload)->0,
    )
}

/// Parsing the frame of a message gives one message: the one that was
/// framed, with the payload that the region decodes to.
pub proof fn lemma_parse_framed(
    version: TuyaVersion,
    key: Seq<u8>,
    message: MessageView,
    region: Seq<u8>,
)
    requires
        message.command is Some,
    ensures
        travels_with(message, region) ==> parsed(version, key, message.framed(region)) == Ok::<
            _,
            ErrorKind,
        >(seq![arrives_with(version, key, message, region)]),
{
    let command = message.command->0;
    if travels_with(message, region) {
        lemma_parse_frame(message.wire_seq_nr(), command.code(), message.ret_code, region);
        lemma_of_code_code(command);
        let frame = Frame {
            seq_nr: message.wire_seq_nr(),
            command: command.code() as u32,
            ret_code: message.ret_code,
            region,
        };
        assert(messages_of(version, key, seq![frame]) =~= seq![
            arrives_with(version, key, message, region),
        ]);
    }
}

/// Parsing an encoded message gives one message: the one that was encoded,
/// with the payload that its payload region decodes to.
pub proof fn lemma_parse_encoded(
    version: TuyaVersion,
    key: Seq<u8>,
    message: MessageView,
    encrypt: bool,
)
    requires
        message.command is Some,
    ensures
        travels(version, key, message, encrypt) ==> encoded(version, key, message, encrypt)
            is Some && parsed(version, key, encoded(version, key, message, encrypt)->0) == Ok::<
            _,
            ErrorKind,
        >(seq![arrives_as(version, key, message, encrypt)]),
{
    if travels(version, key, message, encrypt) {
        lemma_parse_framed(
            version,
            key,
            message,
            payload_region(version, key, message.command, encrypt, message.payload)->0,
        );
    }
}

/// Parsing an encoded message gives the message back, where it has a
/// sequence number and its payload region decodes to its payload.
pub proof fn lemma_round_trip(
    version: TuyaVersion,
    key: Seq<u8>,
    message: MessageView,
    encrypt: bool,
)
    requires
        message.command is Some,
        message.seq_nr is Some,
    ensures
        travels(version, key, message, encrypt) && decoded_payload(
            version,
            key,
            payload_region(version, key, message.command, encrypt, message.payload)->0,
        ) == message.payload ==> encoded(version, key, message, encrypt) is Some && parsed(
            version,
            key,
            encoded(version, key, message, encrypt)->0,
        ) == Ok::<_, ErrorKind>(seq![message]),
{
    lemma_parse_encoded(version, key, message, encrypt);
}

/// Parsing the frames at the head of a buffer that is a buffer that parses
/// and bytes that do not begin like a frame gives the messages of the first,
/// and hands the bytes back.
pub proof fn lemma_parse_messages_and_tail(
    version: TuyaVersion,
    key: Seq<u8>,
    first: Seq<u8>,
    tail: Seq<u8>,
)
    ensures
        parsed(version, key, first) is Ok && scan_frame(tail) is Mismatch ==> parsed_messages(
            version,
            key,
            first + tail,
        ) == Ok::<_, ErrorKind>((tail, parsed(version, key, first)->Ok_0)),
{
    lemma_parse_frames_and_tail(first, tail);
}

/// Parsing the frames of two messages, one behind the other, gives the two
/// messages in that order, each with the payload that its region decodes to.
pub proof fn lemma_parse_two_framed(
    version: TuyaVersion,
    key: Seq<u8>,
    first: MessageView,
    region1: Seq<u8>,
    second: MessageView,
    region2: Seq<u8>,
)
    requires
        first.command is Some,
        second.command is Some,
    ensures
        travels_with(first, region1) && travels_with(second, region2) ==> parsed(
            version,
            key,
            first.framed(region1) + second.framed(region2),
        ) == Ok::<_, ErrorKind>(
            seq![
                arrives_with(version, key, first, region1),
                arrives_with(version, key, second, region2),
            ],
        ),
{
    if travels_with(first, region1) && travels_with(second, region2) {
        lemma_parse_framed(version, key, first, region1);
        lemma_parse_framed(version, key, second, region2);
        lemma_parse_joined(version, key, first.framed(region1), second.framed(region2));
        let one = arrives_with(version, key, first, region1);
        let two = arrives_with(version, key, second, region2);
        assert(seq![one] + seq![two] =~= seq![one, two]);
    }
}

/// Parsing two encoded messages, one behind the other, gives the two
/// messages in that order.
pub proof fn lemma_parse_two_encoded(
    version: TuyaVersion,
    key: Seq<u8>,
    first: MessageView,
    encrypt_first: bool,
    second: MessageView,
    encrypt_second: bool,
)
    requires
        first.command is Some,
        second.command is Some,
    ensures
        travels(version, key, first, encrypt_first) && travels(
            version,
            key,
            second,
            encrypt_second,
        ) ==> parsed(
            version,
            key,
            encoded(version, key, first, encrypt_first)->0 + encoded(
                version,
                key,
                second,
                encrypt_second,
            )->0,
        ) == Ok::<_, ErrorKind>(
            seq![
                arrives_as(version, key, first, encrypt_first),
                arrives_as(version, key, second, encrypt_second),
            ],
        ),
{
    if travels(version, key, first, encrypt_first) && travels(
        version,
        key,
        second,
        encrypt_second,
    ) {
        lemma_parse_two_framed(
            version,
            key,
            first,
            payload_region(version, key, first.command, encrypt_first, first.payload)->0,
            second,
            payload_region(version, key, second.command, encrypt_second, second.payload)->0,
        );
    }
}

/// In 3.3 the payload region of a query is the bare ciphertext; that of any
/// other command opens with the tag `3.3`, goes on with the digest, and ends
/// with the ciphertext.
pub proof fn lemma_region_33(
    key: Seq<u8>,
    command: Option<CommandType>,
    encrypt: bool,
    plain: Seq<u8>,
)
    ensures
        payload_region(TuyaVersion::ThreeThree, key, command, encrypt, plain)
            == match aes_128_ecb_encrypted(key, plain) {
            Some(ciphertext) => Some(
                if is_query(command) {
                    ciphertext
                } else {
                    seq![0x33u8, 0x2eu8, 0x33u8] + digest12(TuyaVersion::ThreeThree, key, plain)
                        + ciphertext
                },
            ),
            None => None,
        },
        !is_query(command) && aes_128_ecb_encrypted(key, plain) is Some ==> payload_region(
            TuyaVersion::ThreeThree,
            key,
            command,
            encrypt,
            plain,
        )->0.subrange(0, 3) == seq![0x33u8, 0x2eu8, 0x33u8],
{
    if !is_query(command) && aes_128_ecb_encrypted(key, plain) is Some {
        let region = payload_region(TuyaVersion::ThreeThree, key, command, encrypt, plain)->0;
        let ciphertext = aes_128_ecb_encrypted(key, plain)->0;
        assert(region =~= seq![0x33u8, 0x2eu8, 0x33u8] + digest12(
            TuyaVersion::ThreeThree,
            key,
            plain,
        ) + ciphertext);
        assert(region.subrange(0, 3) =~= seq![0x33u8, 0x2eu8, 0x33u8]);
    }
}

/// In 3.3 the frame of a message is the same whether encryption is asked for
/// or not.
pub proof fn lemma_encrypt_flag_33(key: Seq<u8>, message: MessageView)
    ensures
        encoded(TuyaVersion::ThreeThree, key, message, true) == encoded(
            TuyaVersion::ThreeThree,
            key,
            message,
            false,
        ),
{
}

} // verus!
