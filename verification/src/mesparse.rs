//! Messages, and the parser that turns them into frames and frames into
//! messages.
use vstd::prelude::*;
use vstd::slice::slice_subrange;
use vstd::slice::slice_to_vec;
use vstd::string::StringSliceAdditionalSpecFns;
use crate::cipher::aes_128_ecb_encrypted;
use crate::cipher::decrypted;
use crate::cipher::digest12;
use crate::cipher::encrypted;
use crate::cipher::encrypted_len;
use crate::cipher::has_header;
use crate::cipher::md5_compute;
use crate::cipher::md5_digest;
use crate::cipher::TuyaCipher;
use crate::cipher::MAX_CIPHER_INPUT;
use crate::crc::crc;
use crate::error::ErrorKind;
use crate::error::ParseErrorKind;
use crate::error::Result;
use crate::frame::be32_at;
use crate::frame::fits_frame;
use crate::frame::frame_bytes;
use crate::frame::frame_head;
use crate::frame::has_ret_code;
use crate::frame::match_frame;
use crate::frame::mistaken_ret_code;
use crate::frame::open_envelope;
use crate::frame::open_from;
use crate::frame::opened_frames;
use crate::frame::parsed_frames;
use crate::frame::push_be32;
use crate::frame::read_be32;
use crate::frame::scan_frames;
use crate::frame::scan_more;
use crate::frame::Envelope;
use crate::frame::Frame;
use crate::frame::Span;
use crate::laws::lemma_round_trip;
use crate::laws::sum_of;

verus! {

/// What a frame asks of the device, or reports from it.
#[derive(Debug, Clone, Copy, PartialEq, Eq, Structural)]
pub enum CommandType {
    Udp,
    ApConfig,
    Active,
    Bind,
    RenameGw,
    RenameDevice,
    Unbind,
    Control,
    Status,
    HeartBeat,
    DpQuery,
    QueryWifi,
    TokenBind,
    ControlNew,
    EnableWifi,
    DpQueryNew,
    SceneExecute,
    DpRefresh,
    UdpNew,
    ApConfigNew,
    LanGwActive,
    LanSubDevRequest,
    LanDeleteSubDev,
    LanReportSubDev,
    LanScene,
    LanPublishCloudConfig,
    LanPublishAppConfig,
    LanExportAppConfig,
    LanPublishScenePanel,
    LanRemoveGw,
    LanCheckGwUpdate,
    LanGwUpdate,
    LanSetGwChannel,
    Error,
}

impl CommandType {
    /// The number that stands for the command on the wire.
    pub open spec fn code(self) -> u8 {
        match self {
            CommandType::Udp => 0,
            CommandType::ApConfig => 1,
            CommandType::Active => 2,
            CommandType::Bind => 3,
            CommandType::RenameGw => 4,
            CommandType::RenameDevice => 5,
            CommandType::Unbind => 6,
            CommandType::Control => 7,
            CommandType::Status => 8,
            CommandType::HeartBeat => 9,
            CommandType::DpQuery => 10,
            CommandType::QueryWifi => 11,
            CommandType::TokenBind => 12,
            CommandType::ControlNew => 13,
            CommandType::EnableWifi => 14,
            CommandType::DpQueryNew => 16,
            CommandType::SceneExecute => 17,
            CommandType::DpRefresh => 18,
            CommandType::UdpNew => 19,
            CommandType::ApConfigNew => 20,
            CommandType::LanGwActive => 240,
            CommandType::LanSubDevRequest => 241,
            CommandType::LanDeleteSubDev => 242,
            CommandType::LanReportSubDev => 243,
            CommandType::LanScene => 244,
            CommandType::LanPublishCloudConfig => 245,
            CommandType::LanPublishAppConfig => 246,
            CommandType::LanExportAppConfig => 247,
            CommandType::LanPublishScenePanel => 248,
            CommandType::LanRemoveGw => 249,
            CommandType::LanCheckGwUpdate => 250,
            CommandType::LanGwUpdate => 251,
            CommandType::LanSetGwChannel => 252,
            CommandType::Error => 255,
        }
    }

    /// The command that a number on the wire stands for, if it stands for one.
    pub open spec fn of_code(n: u32) -> Option<CommandType> {
        if n == 0 {
            Some(CommandType::Udp)
        } else if n == 1 {
            Some(CommandType::ApConfig)
        } else if n == 2 {
            Some(CommandType::Active)
        } else if n == 3 {
            Some(CommandType::Bind)
        } else if n == 4 {
            Some(CommandType::RenameGw)
        } else if n == 5 {
            Some(CommandType::RenameDevice)
        } else if n == 6 {
            Some(CommandType::Unbind)
        } else if n == 7 {
            Some(CommandType::Control)
        } else if n == 8 {
            Some(CommandType::Status)
        } else if n == 9 {
            Some(CommandType::HeartBeat)
        } else if n == 10 {
            Some(CommandType::DpQuery)
        } else if n == 11 {
            Some(CommandType::QueryWifi)
        } else if n == 12 {
            Some(CommandType::TokenBind)
        } else if n == 13 {
            Some(CommandType::ControlNew)
        } else if n == 14 {
            Some(CommandType::EnableWifi)
        } else if n == 16 {
            Some(CommandType::DpQueryNew)
        } else if n == 17 {
            Some(CommandType::SceneExecute)
        } else if n == 18 {
            Some(CommandType::DpRefresh)
        } else if n == 19 {
            Some(CommandType::UdpNew)
        } else if n == 20 {
            Some(CommandType::ApConfigNew)
        } else if n == 240 {
            Some(CommandType::LanGwActive)
        } else if n == 241 {
            Some(CommandType::LanSubDevRequest)
        } else if n == 242 {
            Some(CommandType::LanDeleteSubDev)
        } else if n == 243 {
            Some(CommandType::LanReportSubDev)
        } else if n == 244 {
            Some(CommandType::LanScene)
        } else if n == 245 {
            Some(CommandType::LanPublishCloudConfig)
        } else if n == 246 {
            Some(CommandType::LanPublishAppConfig)
        } else if n == 247 {
            Some(CommandType::LanExportAppConfig)
        } else if n == 248 {
            Some(CommandType::LanPublishScenePanel)
        } else if n == 249 {
            Some(CommandType::LanRemoveGw)
        } else if n == 250 {
            Some(CommandType::LanCheckGwUpdate)
        } else if n == 251 {
            Some(CommandType::LanGwUpdate)
        } else if n == 252 {
            Some(CommandType::LanSetGwChannel)
        } else if n == 255 {
            Some(CommandType::Error)
        } else {
            None
        }
    }

    /// The number that stands for the command on the wire.
    pub fn to_u8(&self) -> (n: u8)
        ensures
            n == self.code(),
            CommandType::of_code(n as u32) == Some(*self),
    {
        match self {
            CommandType::Udp => 0,
            CommandType::ApConfig => 1,
            CommandType::Active => 2,
            CommandType::Bind => 3,
            CommandType::RenameGw => 4,
            CommandType::RenameDevice => 5,
            CommandType::Unbind => 6,
            CommandType::Control => 7,
            CommandType::Status => 8,
            CommandType::HeartBeat => 9,
            CommandType::DpQuery => 10,
            CommandType::QueryWifi => 11,
            CommandType::TokenBind => 12,
            CommandType::ControlNew => 13,
            CommandType::EnableWifi => 14,
            CommandType::DpQueryNew => 16,
            CommandType::SceneExecute => 17,
            CommandType::DpRefresh => 18,
            CommandType::UdpNew => 19,
            CommandType::ApConfigNew => 20,
            CommandType::LanGwActive => 240,
            CommandType::LanSubDevRequest => 241,
            CommandType::LanDeleteSubDev => 242,
            CommandType::LanReportSubDev => 243,
            CommandType::LanScene => 244,
            CommandType::LanPublishCloudConfig => 245,
            CommandType::LanPublishAppConfig => 246,
            CommandType::LanExportAppConfig => 247,
            CommandType::LanPublishScenePanel => 248,
            CommandType::LanRemoveGw => 249,
            CommandType::LanCheckGwUpdate => 250,
            CommandType::LanGwUpdate => 251,
            CommandType::LanSetGwChannel => 252,
            CommandType::Error => 255,
        }
    }

    /// The command that a number on the wire stands for. A number outside the
    /// table stands for none.
    pub fn from_u32(n: u32) -> (command: Option<CommandType>)
        ensures
            command == CommandType::of_code(n),
            command matches Some(c) ==> c.code() == n,
    {
        match n {
            0 => Some(CommandType::Udp),
            1 => Some(CommandType::ApConfig),
            2 => Some(CommandType::Active),
            3 => Some(CommandType::Bind),
            4 => Some(CommandType::RenameGw),
            5 => Some(CommandType::RenameDevice),
            6 => Some(CommandType::Unbind),
            7 => Some(CommandType::Control),
            8 => Some(CommandType::Status),
            9 => Some(CommandType::HeartBeat),
            10 => Some(CommandType::DpQuery),
            11 => Some(CommandType::QueryWifi),
            12 => Some(CommandType::TokenBind),
            13 => Some(CommandType::ControlNew),
            14 => Some(CommandType::EnableWifi),
            16 => Some(CommandType::DpQueryNew),
            17 => Some(CommandType::SceneExecute),
            18 => Some(CommandType::DpRefresh),
            19 => Some(CommandType::UdpNew),
            20 => Some(CommandType::ApConfigNew),
            240 => Some(CommandType::LanGwActive),
            241 => Some(CommandType::LanSubDevRequest),
            242 => Some(CommandType::LanDeleteSubDev),
            243 => Some(CommandType::LanReportSubDev),
            244 => Some(CommandType::LanScene),
            245 => Some(CommandType::LanPublishCloudConfig),
            246 => Some(CommandType::LanPublishAppConfig),
            247 => Some(CommandType::LanExportAppConfig),
            248 => Some(CommandType::LanPublishScenePanel),
            249 => Some(CommandType::LanRemoveGw),
            250 => Some(CommandType::LanCheckGwUpdate),
            251 => Some(CommandType::LanGwUpdate),
            252 => Some(CommandType::LanSetGwChannel),
            255 => Some(CommandType::Error),
            _ => None,
        }
    }
}

/// A command is the command that its number stands for.
pub proof fn lemma_of_code_code(command: CommandType)
    ensures
        CommandType::of_code(command.code() as u32) == Some(command),
{
}

/// The two revisions of the protocol.
#[derive(Debug, Clone, Copy, PartialEq, Eq, Structural)]
pub enum TuyaVersion {
    ThreeOne,
    ThreeThree,
}

impl TuyaVersion {
    /// The three ASCII characters that open a payload header: `3.1` or `3.3`.
    pub open spec fn tag(self) -> Seq<u8> {
        match self {
            TuyaVersion::ThreeOne => seq![0x33u8, 0x2eu8, 0x31u8],
            TuyaVersion::ThreeThree => seq![0x33u8, 0x2eu8, 0x33u8],
        }
    }

    /// The version as it is written in a payload header.
    pub fn as_bytes(&self) -> (tag: &[u8])
        ensures
            tag@ == self.tag(),
    {
        match self {
            TuyaVersion::ThreeOne => &[0x33u8, 0x2eu8, 0x31u8],
            TuyaVersion::ThreeThree => &[0x33u8, 0x2eu8, 0x33u8],
        }
    }
}

/// The index of the first `.` in `s` at `from` or behind it; the length of
/// `s` where there is none.
pub open spec fn dot_from(s: Seq<char>, from: int) -> int
    decreases s.len() - from,
{
    if from < 0 || from >= s.len() {
        s.len() as int
    } else if s[from] == '.' {
        from
    } else {
        dot_from(s, from + 1)
    }
}

/// What stands in front of the first `.` of `s`.
pub open spec fn major_of(s: Seq<char>) -> Seq<char> {
    s.subrange(0, dot_from(s, 0))
}

/// What stands between the first `.` of `s` and the second, or the end.
pub open spec fn minor_of(s: Seq<char>) -> Seq<char> {
    s.subrange(dot_from(s, 0) + 1, dot_from(s, dot_from(s, 0) + 1))
}

/// Whether `s` has the shape of a version: a `.` in it, and a `3` in front
/// of the first.
pub open spec fn is_versioned(s: Seq<char>) -> bool {
    0 < dot_from(s, 0) < s.len() && s[dot_from(s, 0) - 1] == '3'
}

/// The version that `s` names: `s` is split at its dots, the first part has
/// to end in `3`, and the second has to be `1` or `3`.
pub open spec fn version_of(s: Seq<char>) -> Option<TuyaVersion> {
    if !is_versioned(s) {
        None
    } else if minor_of(s) == seq!['1'] {
        Some(TuyaVersion::ThreeOne)
    } else if minor_of(s) == seq!['3'] {
        Some(TuyaVersion::ThreeThree)
    } else {
        None
    }
}

impl TuyaVersion {
    /// Reads a version from a string such as `3.1` or `ver3.3`.
    ///
    /// Fails with `VersionError`: of the major and minor part where the
    /// string has the shape of a version, of `Unknown` twice where it has not.
    pub fn from_str(s: &str) -> (res: Result<TuyaVersion>)
        ensures
            match res {
                Ok(version) => version_of(s@) == Some(version),
                Err(ErrorKind::VersionError(major, minor)) => version_of(s@) is None && (
                if is_versioned(s@) {
                    major@ == major_of(s@) && minor@ == minor_of(s@)
                } else {
                    major@ == "Unknown"@ && minor@ == "Unknown"@
                }),
                Err(_) => false,
            },
    {
        let n = s.unicode_len();
        let first = find_dot(s, n, 0);
        if first < n && first > 0 && s.get_char(first - 1) == '3' {
            let second = find_dot(s, n, first + 1);
            let minor = s.substring_char(first + 1, second);
            if second - first == 2 && s.get_char(first + 1) == '1' {
                assert(minor_of(s@) =~= seq!['1']);
                return Ok(TuyaVersion::ThreeOne);
            } else if second - first == 2 && s.get_char(first + 1) == '3' {
                assert(minor_of(s@) =~= seq!['3']);
                assert(minor_of(s@)[0] != seq!['1'][0]);
                return Ok(TuyaVersion::ThreeThree);
            }
            assert(minor_of(s@) != seq!['1'] && minor_of(s@) != seq!['3']) by {
                if minor_of(s@).len() == 1 {
                    assert(minor_of(s@)[0] == s@[first + 1]);
                }
            }
            return Err(
                ErrorKind::VersionError(
                    s.substring_char(0, first).to_owned(),
                    minor.to_owned(),
                ),
            );
        }
        Err(ErrorKind::VersionError("Unknown".to_owned(), "Unknown".to_owned()))
    }
}

impl core::str::FromStr for TuyaVersion {
    type Err = ErrorKind;

    /// Reads a version as [`TuyaVersion::from_str`] does.
    fn from_str(s: &str) -> (res: Result<TuyaVersion>)
        ensures
            match res {
                Ok(version) => version_of(s@) == Some(version),
                Err(ErrorKind::VersionError(major, minor)) => version_of(s@) is None && (
                if is_versioned(s@) {
                    major@ == major_of(s@) && minor@ == minor_of(s@)
                } else {
                    major@ == "Unknown"@ && minor@ == "Unknown"@
                }),
                Err(_) => false,
            },
    {
        TuyaVersion::from_str(s)
    }
}

/// Finds the first `.` of `s` at `from` or behind it.
fn find_dot(s: &str, n: usize, from: usize) -> (at: usize)
    requires
        n == s@.len(),
    ensures
        at == dot_from(s@, from as int),
        at <= n,
        from <= n ==> from <= at,
{
    if from >= n {
        return n;
    }
    let mut at = from;
    while at < n && s.get_char(at) != '.'
        invariant
            n == s@.len(),
            from <= at <= n,
            dot_from(s@, from as int) == dot_from(s@, at as int),
        decreases n - at,
    {
        at += 1;
    }
    at
}

/// The key that a parser without a device key works with is the MD5 digest of
/// this text.
pub const UDP_KEY: &'static str = "yGAdlopoPVldABfn";

/// The bytes of a key string, where there is one.
pub open spec fn key_bytes(key: Option<&str>) -> Option<Seq<u8>> {
    match key {
        Some(key) => Some(key.spec_bytes()),
        None => None,
    }
}

/// The key that [`verify_key`] makes of the bytes of a key string.
pub open spec fn verified_key(key: Option<Seq<u8>>) -> core::result::Result<Seq<u8>, ErrorKind> {
    match key {
        Some(key) => if key.len() == 16 {
            Ok(key)
        } else {
            Err(ErrorKind::KeyLength(key.len() as usize))
        },
        None => Ok(md5_digest(UDP_KEY.spec_bytes())),
    }
}

/// The bytes of a device key, which has to be 16 bytes long; without a key,
/// the digest of [`UDP_KEY`]. Fails with `KeyLength` of the number of bytes
/// that the key has instead.
pub fn verify_key(key: Option<&str>) -> (res: Result<Vec<u8>>)
    ensures
        match res {
            Ok(bytes) => bytes@.len() == 16 && verified_key(key_bytes(key)) == Ok::<_, ErrorKind>(
                bytes@,
            ),
            Err(e) => key is Some && verified_key(key_bytes(key)) == Err::<Seq<u8>, _>(e),
        },
{
    match key {
        Some(key) => {
            let bytes = key.as_bytes();
            if bytes.len() == 16 {
                Ok(slice_to_vec(bytes))
            } else {
                Err(ErrorKind::KeyLength(bytes.len()))
            }
        },
        None => Ok(md5_compute(UDP_KEY.as_bytes())),
    }
}

/// A message to a device or from one. The payload is held as the bytes that
/// travel, before encryption or after decryption. A reply repeats the sequence
/// number of the request it answers, and it alone has a return code.
#[derive(Debug, PartialEq)]
pub struct Message {
    pub payload: Vec<u8>,
    pub command: Option<CommandType>,
    pub seq_nr: Option<u32>,
    pub ret_code: Option<u8>,
}

/// A message as a mathematical value.
pub struct MessageView {
    pub payload: Seq<u8>,
    pub command: Option<CommandType>,
    pub seq_nr: Option<u32>,
    pub ret_code: Option<u8>,
}

impl View for Message {
    type V = MessageView;

    open spec fn view(&self) -> MessageView {
        MessageView {
            payload: self.payload@,
            command: self.command,
            seq_nr: self.seq_nr,
            ret_code: self.ret_code,
        }
    }
}

impl Message {
    /// A message to send: it has no return code.
    pub fn new(payload: &[u8], command: CommandType, seq_nr: Option<u32>) -> (message: Message)
        ensures
            message@ == (MessageView {
                payload: payload@,
                command: Some(command),
                seq_nr,
                ret_code: None,
            }),
    {
        Message { payload: slice_to_vec(payload), command: Some(command), seq_nr, ret_code: None }
    }
}

impl MessageView {
    /// The sequence number that is written into the frame: 0 where the
    /// message has none.
    pub open spec fn wire_seq_nr(self) -> u32 {
        match self.seq_nr {
            Some(nr) => nr,
            None => 0,
        }
    }

    /// The frame that carries the message's header around `region`.
    pub open spec fn framed(self, region: Seq<u8>) -> Seq<u8>
        recommends
            self.command is Some,
    {
        frame_bytes(self.wire_seq_nr(), self.command->0.code(), self.ret_code, region)
    }
}

impl Message {
    /// Puts the frame together that carries this message's header around
    /// `region`, the payload as it is to travel.
    ///
    /// Fails with `CommandTypeMissing` where the message has no command, and
    /// otherwise with `ParseError(TooLarge)` where the frame would be longer
    /// than its length field can say.
    pub fn frame(&self, region: &[u8]) -> (res: Result<Vec<u8>>)
        ensures
            match res {
                Ok(bytes) => self.command is Some && fits_frame(self.ret_code, region@.len())
                    && bytes@ == self@.framed(region@),
                Err(ErrorKind::CommandTypeMissing) => self.command is None,
                Err(ErrorKind::ParseError(ParseErrorKind::TooLarge)) => self.command is Some
                    && !fits_frame(self.ret_code, region@.len()),
                Err(_) => false,
            },
    {
        let mut encoded: Vec<u8> = Vec::new();
        encoded.extend_from_slice(&[0x00u8, 0x00u8, 0x55u8, 0xaau8]);
        match self.seq_nr {
            Some(nr) => push_be32(&mut encoded, nr),
            None => push_be32(&mut encoded, 0),
        }
        let command = match self.command {
            Some(command) => command,
            None => {
                return Err(ErrorKind::CommandTypeMissing);
            },
        };
        push_be32(&mut encoded, command.to_u8() as u32);
        let ret_len: usize = match self.ret_code {
            Some(_) => 4,
            None => 0,
        };
        if region.len() > 0xffff_ffff - 8 - ret_len {
            return Err(ErrorKind::ParseError(ParseErrorKind::TooLarge));
        }
        push_be32(&mut encoded, (region.len() + 8 + ret_len) as u32);
        if let Some(ret_code) = self.ret_code {
            push_be32(&mut encoded, ret_code as u32);
        }
        encoded.extend_from_slice(region);
        assert(encoded@ =~= frame_head(
            self@.wire_seq_nr(),
            command.code(),
            self.ret_code,
            region@,
        ));
        let sum = crc(encoded.as_slice());
        push_be32(&mut encoded, sum);
        encoded.extend_from_slice(&[0x00u8, 0x00u8, 0xaau8, 0x55u8]);
        assert(encoded@ =~= self@.framed(region@));
        Ok(encoded)
    }
}

/// The messages of a sequence as mathematical values.
pub open spec fn views(messages: Seq<Message>) -> Seq<MessageView> {
    Seq::new(messages.len(), |i: int| messages[i]@)
}

/// The payload that a received payload region stands for: what it decrypts
/// to, or the region itself where it does not decrypt.
pub open spec fn decoded_payload(version: TuyaVersion, key: Seq<u8>, region: Seq<u8>) -> Seq<u8> {
    match decrypted(version, key, region) {
        Some(plain) => plain,
        None => region,
    }
}

/// The message that a received frame stands for. A command number outside
/// the table gives a message without a command.
pub open spec fn message_of(version: TuyaVersion, key: Seq<u8>, frame: Frame) -> MessageView {
    MessageView {
        payload: decoded_payload(version, key, frame.region),
        command: CommandType::of_code(frame.command),
        seq_nr: Some(frame.seq_nr),
        ret_code: frame.ret_code,
    }
}

/// The messages that received frames stand for, in their order.
pub open spec fn messages_of(version: TuyaVersion, key: Seq<u8>, frames: Seq<Frame>) -> Seq<
    MessageView,
> {
    Seq::new(frames.len(), |i: int| message_of(version, key, frames[i]))
}

/// What [`MessageParser::parse_messages`] makes of `buf`: what is left of it
/// behind the frames at its head, and their messages.
pub open spec fn parsed_messages(version: TuyaVersion, key: Seq<u8>, buf: Seq<u8>)
    -> core::result::Result<(Seq<u8>, Seq<MessageView>), ErrorKind> {
    match opened_frames(buf) {
        Err(e) => Err(e),
        Ok((rest, frames)) => Ok((rest, messages_of(version, key, frames))),
    }
}

/// What [`MessageParser::parse`] makes of `buf`: the messages of the frames
/// that `buf` consists of.
pub open spec fn parsed(version: TuyaVersion, key: Seq<u8>, buf: Seq<u8>) -> core::result::Result<
    Seq<MessageView>,
    ErrorKind,
> {
    match parsed_frames(buf) {
        Err(e) => Err(e),
        Ok(frames) => Ok(messages_of(version, key, frames)),
    }
}

/// Twelve zero bytes: what a 3.1 header holds between the tag and the text.
pub open spec fn zeros12() -> Seq<u8> {
    Seq::new(12, |i: int| 0u8)
}

/// The header in front of an encrypted payload: the version's tag and twelve
/// bytes, zeros in 3.1, the digest in 3.3.
pub open spec fn header_of(version: TuyaVersion, key: Seq<u8>, plain: Seq<u8>) -> Seq<u8> {
    version.tag() + (match version {
        TuyaVersion::ThreeOne => zeros12(),
        TuyaVersion::ThreeThree => digest12(version, key, plain),
    })
}

/// An encrypted payload behind its header; `None` where the payload is not
/// encrypted.
pub open spec fn with_header(version: TuyaVersion, key: Seq<u8>, plain: Seq<u8>) -> Option<
    Seq<u8>,
> {
    match encrypted(version, key, plain) {
        Some(text) => Some(header_of(version, key, plain) + text),
        None => None,
    }
}

/// Whether a 3.3 frame with this command carries the bare ciphertext, without
/// a header.
pub open spec fn is_query(command: Option<CommandType>) -> bool {
    command == Some(CommandType::DpQuery) || command == Some(CommandType::DpRefresh)
}

/// Whether the payload of a message is encrypted on its way out: always in
/// 3.3, on request in 3.1.
pub open spec fn uses_cipher(version: TuyaVersion, encrypt: bool) -> bool {
    version == TuyaVersion::ThreeThree || encrypt
}

/// The payload region of an outgoing frame; `None` where the payload has to
/// be encrypted and is not.
pub open spec fn payload_region(
    version: TuyaVersion,
    key: Seq<u8>,
    command: Option<CommandType>,
    encrypt: bool,
    plain: Seq<u8>,
) -> Option<Seq<u8>> {
    match version {
        TuyaVersion::ThreeOne => if encrypt {
            with_header(version, key, plain)
        } else {
            Some(plain)
        },
        TuyaVersion::ThreeThree => if is_query(command) {
            encrypted(version, key, plain)
        } else {
            with_header(version, key, plain)
        },
    }
}

/// The length of the payload region of an outgoing frame whose payload has
/// `len` bytes.
pub open spec fn region_len(
    version: TuyaVersion,
    command: Option<CommandType>,
    encrypt: bool,
    len: nat,
) -> nat {
    match version {
        TuyaVersion::ThreeOne => if encrypt {
            15 + encrypted_len(version, len)
        } else {
            len
        },
        TuyaVersion::ThreeThree => if is_query(command) {
            encrypted_len(version, len)
        } else {
            15 + encrypted_len(version, len)
        },
    }
}

/// Whether a payload of `len` bytes is too long to be encoded: for the cipher
/// where it is encrypted, for the length field of the frame where it is not.
pub open spec fn too_large(version: TuyaVersion, encrypt: bool, ret_code: Option<u8>, len: nat)
    -> bool {
    if uses_cipher(version, encrypt) {
        len > MAX_CIPHER_INPUT
    } else {
        !fits_frame(ret_code, len)
    }
}

/// What [`MessageParser::encode`] makes of a message that has a command and
/// is not too long; `None` where the payload has to be encrypted and is not.
pub open spec fn encoded(version: TuyaVersion, key: Seq<u8>, message: MessageView, encrypt: bool)
    -> Option<Seq<u8>>
    recommends
        message.command is Some,
{
    match payload_region(version, key, message.command, encrypt, message.payload) {
        Some(region) => Some(message.framed(region)),
        None => None,
    }
}

/// The length of a frame: 24 bytes, the return code and the region.
pub proof fn lemma_frame_len(message: MessageView, region: Seq<u8>)
    requires
        message.command is Some,
    ensures
        message.framed(region).len() == 24 + region.len() + (if message.ret_code is Some {
            4int
        } else {
            0int
        }),
{
}

/// The envelopes that spans mark in `buf`.
pub open spec fn envelopes(buf: Seq<u8>, spans: Seq<Span>) -> Seq<Envelope> {
    Seq::new(spans.len(), |i: int| spans[i].envelope(buf))
}

/// Encodes messages into frames and parses frames into messages, under one
/// protocol version and one device key.
pub struct MessageParser {
    version: TuyaVersion,
    cipher: TuyaCipher,
}

impl MessageParser {
    #[verifier::type_invariant]
    spec fn cipher_has_version(&self) -> bool {
        self.cipher.version() == self.version
    }

    /// The protocol version.
    pub closed spec fn version(&self) -> TuyaVersion {
        self.version
    }

    /// The device key.
    pub closed spec fn key(&self) -> Seq<u8> {
        self.cipher.key()
    }

    /// A parser for the version that `ver` names and the device key `key`,
    /// which has to be 16 bytes long. Without a key the parser works with the
    /// digest of [`UDP_KEY`].
    ///
    /// Fails with `VersionError` where `ver` names no version, and otherwise
    /// with `KeyLength` where the key has another length.
    pub fn create(ver: &str, key: Option<&str>) -> (res: Result<MessageParser>)
        ensures
            match res {
                Ok(parser) => version_of(ver@) == Some(parser.version()) && verified_key(
                    key_bytes(key),
                ) == Ok::<_, ErrorKind>(parser.key()),
                Err(ErrorKind::VersionError(_, _)) => version_of(ver@) is None,
                Err(ErrorKind::KeyLength(n)) => version_of(ver@) is Some && verified_key(
                    key_bytes(key),
                ) == Err::<Seq<u8>, _>(ErrorKind::KeyLength(n)),
                Err(_) => false,
            },
    {
        let version = match TuyaVersion::from_str(ver) {
            Ok(version) => version,
            Err(e) => {
                return Err(e);
            },
        };
        let key = match verify_key(key) {
            Ok(key) => key,
            Err(e) => {
                return Err(e);
            },
        };
        match TuyaCipher::create(key.as_slice(), version) {
            Ok(cipher) => Ok(MessageParser { version, cipher }),
            Err(e) => Err(e),
        }
    }

    /// Encodes a message into a frame. In 3.3 the payload is always
    /// encrypted; in 3.1 it is encrypted where `encrypt` says so.
    ///
    /// Fails with `CommandTypeMissing` where the message has no command;
    /// otherwise with `ParseError(TooLarge)` where the payload is too long,
    /// for the cipher or for the length field of the frame; and otherwise
    /// with `EncryptionError` where the AES backend does not encrypt the
    /// payload. On every other message it gives the frame.
    ///
    /// A 3.1 frame with an encrypted payload differs from the frame with the
    /// plain payload. A 3.3 frame is parsed into the message again, where the
    /// message has a sequence number and its payload region is not too long
    /// for the cipher; a bare ciphertext, in addition, must not happen to open
    /// like a header or like a return code.
    pub fn encode(&self, mes: &Message, encrypt: bool) -> (res: Result<Vec<u8>>)
        ensures
            match res {
                Ok(bytes) => {
                    &&& mes.command is Some
                    &&& !too_large(self.version(), encrypt, mes.ret_code, mes.payload@.len())
                    &&& encoded(self.version(), self.key(), mes@, encrypt) == Some(bytes@)
                    &&& self.in_frame(mes@, encrypt, bytes@)
                },
                Err(ErrorKind::CommandTypeMissing) => mes.command is None,
                Err(ErrorKind::ParseError(ParseErrorKind::TooLarge)) => mes.command is Some
                    && too_large(self.version(), encrypt, mes.ret_code, mes.payload@.len()),
                Err(ErrorKind::EncryptionError(_)) => mes.command is Some && !too_large(
                    self.version(),
                    encrypt,
                    mes.ret_code,
                    mes.payload@.len(),
                ) && uses_cipher(self.version(), encrypt) && aes_128_ecb_encrypted(
                    self.key(),
                    mes.payload@,
                ) is None,
                Err(_) => false,
            },
            mes.command is Some && !too_large(
                self.version(),
                encrypt,
                mes.ret_code,
                mes.payload@.len(),
            ) && (uses_cipher(self.version(), encrypt) ==> aes_128_ecb_encrypted(
                self.key(),
                mes.payload@,
            ) is Some) ==> res is Ok,
    {
        if mes.command.is_none() {
            return Err(ErrorKind::CommandTypeMissing);
        }
        let ciphered = match self.version {
            TuyaVersion::ThreeOne => encrypt,
            TuyaVersion::ThreeThree => true,
        };
        if ciphered && mes.payload.len() > MAX_CIPHER_INPUT {
            return Err(ErrorKind::ParseError(ParseErrorKind::TooLarge));
        }
        let payload = match self.create_payload_header(mes, encrypt) {
            Ok(payload) => payload,
            Err(e) => {
                return Err(e);
            },
        };
        let res = mes.frame(payload.as_slice());
        proof {
            let region = payload@;
            if res is Ok && encrypt && self.version == TuyaVersion::ThreeOne {
                lemma_frame_len(mes@, region);
                lemma_frame_len(mes@, mes.payload@);
            }
            if res is Ok && self.version == TuyaVersion::ThreeThree && mes.seq_nr is Some {
                if !is_query(mes.command) {
                    assert((region + sum_of(mes@, region))[0] == region[0]);
                }
                lemma_round_trip(self.version(), self.key(), mes@, encrypt);
            }
        }
        res
    }

    /// What holds of the frame `bytes` that [`MessageParser::encode`] made of
    /// `message`, beyond what the frame is.
    pub open spec fn in_frame(&self, message: MessageView, encrypt: bool, bytes: Seq<u8>) -> bool {
        let region = payload_region(
            self.version(),
            self.key(),
            message.command,
            encrypt,
            message.payload,
        )->0;
        &&& region.len() == region_len(
            self.version(),
            message.command,
            encrypt,
            message.payload.len(),
        )
        &&& fits_frame(message.ret_code, region.len())
        &&& self.version() == TuyaVersion::ThreeOne && encrypt ==> Some(bytes) != encoded(
            self.version(),
            self.key(),
            message,
            false,
        )
        &&& self.version() == TuyaVersion::ThreeThree && !is_query(message.command) ==> digest12(
            self.version(),
            self.key(),
            message.payload,
        ).len() == 12
        &&& self.version() == TuyaVersion::ThreeThree && message.seq_nr is Some && region.len()
            <= MAX_CIPHER_INPUT && (is_query(message.command) ==> !has_header(
            self.version(),
            region,
        ) && !mistaken_ret_code(message.ret_code, region, sum_of(message, region))) ==> parsed(
            self.version(),
            self.key(),
            bytes,
        ) == Ok::<_, ErrorKind>(seq![message])
    }

    /// The payload region of the frame for `mes`.
    fn create_payload_header(&self, mes: &Message, encrypt: bool) -> (res: Result<Vec<u8>>)
        requires
            uses_cipher(self.version(), encrypt) ==> mes.payload@.len() <= MAX_CIPHER_INPUT,
        ensures
            match res {
                Ok(region) => {
                    &&& payload_region(
                        self.version(),
                        self.key(),
                        mes.command,
                        encrypt,
                        mes.payload@,
                    ) == Some(region@)
                    &&& region@.len() == region_len(
                        self.version(),
                        mes.command,
                        encrypt,
                        mes.payload@.len(),
                    )
                    &&& self.version() == TuyaVersion::ThreeThree && !is_query(mes.command)
                        ==> region@[0] == 0x33 && digest12(
                        self.version(),
                        self.key(),
                        mes.payload@,
                    ).len() == 12
                    &&& self.version() == TuyaVersion::ThreeThree && region@.len()
                        <= MAX_CIPHER_INPUT && (is_query(mes.command) ==> !has_header(
                        self.version(),
                        region@,
                    )) ==> decoded_payload(self.version(), self.key(), region@) == mes.payload@
                },
                Err(e) => e is EncryptionError && uses_cipher(self.version(), encrypt)
                    && aes_128_ecb_encrypted(self.key(), mes.payload@) is None,
            },
    {
        proof {
            use_type_invariant(self);
        }
        match self.version {
            TuyaVersion::ThreeOne => {
                if encrypt {
                    self.create_payload_with_header(mes.payload.as_slice())
                } else {
                    Ok(mes.payload.clone())
                }
            },
            TuyaVersion::ThreeThree => match mes.command {
                Some(CommandType::DpQuery) | Some(CommandType::DpRefresh) => self.cipher.encrypt(
                    mes.payload.as_slice(),
                ),
                _ => self.create_payload_with_header(mes.payload.as_slice()),
            },
        }
    }

    /// The ciphertext of `payload` behind its header.
    fn create_payload_with_header(&self, payload: &[u8]) -> (res: Result<Vec<u8>>)
        requires
            payload@.len() <= MAX_CIPHER_INPUT,
        ensures
            match res {
                Ok(region) => {
                    &&& with_header(self.version(), self.key(), payload@) == Some(region@)
                    &&& region@.len() == 15 + encrypted_len(self.version(), payload@.len())
                    &&& region@[0] == 0x33
                    &&& self.version() == TuyaVersion::ThreeThree ==> digest12(
                        self.version(),
                        self.key(),
                        payload@,
                    ).len() == 12
                    &&& self.version() == TuyaVersion::ThreeThree && region@.len()
                        <= MAX_CIPHER_INPUT ==> decoded_payload(
                        self.version(),
                        self.key(),
                        region@,
                    ) == payload@
                },
                Err(e) => e is EncryptionError && aes_128_ecb_encrypted(self.key(), payload@)
                    is None,
            },
    {
        proof {
            use_type_invariant(self);
        }
        let mut payload_with_header: Vec<u8> = Vec::new();
        payload_with_header.extend_from_slice(self.version.as_bytes());
        match self.version {
            TuyaVersion::ThreeOne => {
                let mut i: usize = 0;
                while i < 12
                    invariant
                        i <= 12,
                        payload_with_header@ == self.version.tag() + Seq::new(
                            i as nat,
                            |j: int| 0u8,
                        ),
                    decreases 12 - i,
                {
                    payload_with_header.push(0);
                    i += 1;
                }
            },
            TuyaVersion::ThreeThree => {
                let digest = self.cipher.md5(payload);
                payload_with_header.extend_from_slice(digest.as_slice());
            },
        }
        assert(payload_with_header@ =~= header_of(self.version(), self.key(), payload@));
        let ciphertext = match self.cipher.encrypt(payload) {
            Ok(ciphertext) => ciphertext,
            Err(e) => {
                return Err(e);
            },
        };
        payload_with_header.extend_from_slice(ciphertext.as_slice());
        proof {
            let region = payload_with_header@;
            assert(region =~= header_of(self.version(), self.key(), payload@) + ciphertext@);
            if self.version == TuyaVersion::ThreeThree {
                assert(region.subrange(0, 3) =~= self.version.tag());
                assert(region.subrange(15, region.len() as int) =~= ciphertext@);
            }
        }
        Ok(payload_with_header)
    }

    /// Parses the frames that `buf` consists of into messages, in the order
    /// of the wire.
    ///
    /// Fails with `ParseError` where `buf` does not open with a frame, with
    /// `ParsingIncomplete` where it ends inside a frame, with `CRCError` where
    /// a checksum does not hold, and with `BufferNotCompletelyParsedError`
    /// where something that is no frame follows the last frame.
    pub fn parse(&self, buf: &[u8]) -> (res: Result<Vec<Message>>)
        ensures
            match res {
                Ok(messages) => parsed(self.version(), self.key(), buf@) == Ok::<_, ErrorKind>(
                    views(messages@),
                ),
                Err(e) => parsed(self.version(), self.key(), buf@) == Err::<Seq<MessageView>, _>(
                    e,
                ),
            },
    {
        let (rest, messages) = self.parse_messages(buf)?;
        if rest.len() != 0 {
            return Err(ErrorKind::BufferNotCompletelyParsedError);
        }
        Ok(messages)
    }

    /// Parses the frames at the head of `orig_buf`, of which there has to be
    /// one at least, into messages. Gives what is left of the buffer behind
    /// them, and the messages.
    pub fn parse_messages<'a>(&self, orig_buf: &'a [u8]) -> (res: Result<(&'a [u8], Vec<Message>)>)
        ensures
            match res {
                Ok((rest, messages)) => parsed_messages(self.version(), self.key(), orig_buf@)
                    == Ok::<_, ErrorKind>((rest@, views(messages@))),
                Err(e) => parsed_messages(self.version(), self.key(), orig_buf@) == Err::<
                    (Seq<u8>, Seq<MessageView>),
                    _,
                >(e),
            },
    {
        let n = orig_buf.len();
        let ghost buf = orig_buf@;
        assert(buf.subrange(0, n as int) =~= buf);
        let (first, mut at) = match match_frame(orig_buf, 0) {
            Ok(found) => found,
            Err(e) => {
                return Err(e);
            },
        };
        let mut spans: Vec<Span> = Vec::new();
        spans.push(first);
        assert(envelopes(buf, spans@) =~= Seq::<Envelope>::empty().push(first.envelope(buf)));
        loop
            invariant
                n == orig_buf@.len(),
                buf == orig_buf@,
                at <= n,
                scan_frames(buf) == scan_more(
                    buf.subrange(at as int, n as int),
                    envelopes(buf, spans@),
                ),
                forall|i: int|
                    0 <= i < spans@.len() ==> 16 <= (#[trigger] spans@[i]).start <= spans@[i].end
                        && spans@[i].end + 4 <= n,
            ensures
                at <= n,
                scan_frames(buf) == Ok::<_, ErrorKind>(
                    (envelopes(buf, spans@), buf.subrange(at as int, n as int)),
                ),
                forall|i: int|
                    0 <= i < spans@.len() ==> 16 <= (#[trigger] spans@[i]).start <= spans@[i].end
                        && spans@[i].end + 4 <= n,
            decreases n - at,
        {
            match match_frame(orig_buf, at) {
                Ok((span, next)) => {
                    let ghost before = envelopes(buf, spans@);
                    spans.push(span);
                    assert(envelopes(buf, spans@) =~= before.push(span.envelope(buf)));
                    assert(buf.subrange(at as int, n as int).subrange(
                        next - at,
                        n - at,
                    ) =~= buf.subrange(next as int, n as int));
                    at = next;
                },
                Err(ErrorKind::ParsingIncomplete) => {
                    return Err(ErrorKind::ParsingIncomplete);
                },
                Err(_) => {
                    break ;
                },
            }
        }
        let ghost found = envelopes(buf, spans@);
        let mut messages: Vec<Message> = Vec::new();
        let ghost mut frames: Seq<Frame> = Seq::empty();
        let mut i: usize = 0;
        while i < spans.len()
            invariant
                n == orig_buf@.len(),
                buf == orig_buf@,
                found == envelopes(buf, spans@),
                i <= spans@.len(),
                at <= n,
                scan_frames(buf) == Ok::<_, ErrorKind>((found, buf.subrange(at as int, n as int))),
                open_from(found, 0, Seq::empty()) == open_from(found, i as int, frames),
                views(messages@) == messages_of(self.version(), self.key(), frames),
                forall|i: int|
                    0 <= i < spans@.len() ==> 16 <= (#[trigger] spans@[i]).start <= spans@[i].end
                        && spans@[i].end + 4 <= n,
            decreases spans@.len() - i,
        {
            reveal(open_envelope);
            let span = &spans[i];
            let ghost inner = buf.subrange(span.start as int, span.end as int);
            assert(found[i as int] == span.envelope(buf));
            let len = span.end - span.start;
            let has_ret = len >= 4 && orig_buf[span.start] == 0 && orig_buf[span.start + 1] == 0
                && orig_buf[span.start + 2] == 0;
            assert(has_ret == has_ret_code(inner));
            let (ret_code, skip): (Option<u8>, usize) = if has_ret {
                (Some(orig_buf[span.start + 3]), 4)
            } else {
                (None, 0)
            };
            if len < skip + 4 {
                return Err(ErrorKind::ParseError(ParseErrorKind::Eof));
            }
            let recv_crc = read_be32(orig_buf, span.end - 4);
            assert(recv_crc == be32_at(inner, inner.len() - 4));
            if crc(slice_subrange(orig_buf, span.start - 16, span.end - 4)) != recv_crc {
                return Err(ErrorKind::CRCError);
            }
            let region = slice_subrange(orig_buf, span.start + skip, span.end - 4);
            assert(region@ =~= inner.subrange(skip as int, inner.len() - 4));
            let payload = self.try_decrypt(region);
            let message = Message {
                payload,
                command: CommandType::from_u32(span.command),
                seq_nr: Some(span.seq_nr),
                ret_code,
            };
            proof {
                let frame = open_envelope(found[i as int])->Ok_0;
                assert(message@ == message_of(self.version(), self.key(), frame));
                let before = views(messages@);
                let after = views(messages@.push(message));
                assert(before.len() == messages@.len());
                assert(messages_of(self.version(), self.key(), frames).len() == frames.len());
                assert forall|j: int| 0 <= j < after.len() implies after[j] == messages_of(
                    self.version(),
                    self.key(),
                    frames.push(frame),
                )[j] by {
                    if j < before.len() {
                        assert(after[j] == before[j]);
                    }
                }
                assert(after =~= messages_of(self.version(), self.key(), frames.push(frame)));
                frames = frames.push(frame);
            }
            messages.push(message);
            i += 1;
        }
        Ok((slice_subrange(orig_buf, at, n), messages))
    }

    /// Decrypts a received payload region where it can be decrypted, and
    /// hands it on unchanged where it cannot.
    pub fn try_decrypt(&self, payload: &[u8]) -> (plain: Vec<u8>)
        ensures
            plain@ == decoded_payload(self.version(), self.key(), payload@),
    {
        proof {
            use_type_invariant(self);
        }
        match self.cipher.decrypt(payload) {
            Ok(decrypted) => decrypted,
            Err(_) => slice_to_vec(payload),
        }
    }
}

} // verus!
