//! The decisions of a session with one device: which frame goes out for a
//! request, and what the bytes that came back mean. Opening the socket,
//! writing the frame and reading the reply is the caller's part.
use vstd::prelude::*;
use crate::cipher::aes_128_ecb_encrypted;
use crate::cipher::MAX_CIPHER_INPUT;
use crate::error::ErrorKind;
use crate::error::ParseErrorKind;
use crate::error::Result;
use crate::mesparse::encoded;
use crate::mesparse::key_bytes;
use crate::mesparse::parsed;
use crate::mesparse::verified_key;
use crate::mesparse::version_of;
use crate::mesparse::views;
use crate::mesparse::CommandType;
use crate::mesparse::Message;
use crate::mesparse::MessageParser;
use crate::mesparse::MessageView;
use crate::mesparse::TuyaVersion;
use crate::transports::Transport;

verus! {

/// The port that a device listens on.
pub const DEFAULT_PORT: u16 = 6668;

/// The number of bytes that one read of a reply asks for.
pub const READ_BUFFER_LEN: usize = 256;

/// The number of seconds after which a read or a write is given up.
pub const TIMEOUT_SECS: u64 = 2;

/// The message that asks a device for something.
pub open spec fn request(command: CommandType, payload: Seq<u8>, seq_id: u32) -> MessageView {
    MessageView { payload, command: Some(command), seq_nr: Some(seq_id), ret_code: None }
}

/// A device: its parser, the way to reach it, and the version it speaks.
pub struct TuyaDevice {
    mp: MessageParser,
    transport: Transport,
    ver: TuyaVersion,
}

impl TuyaDevice {
    /// The version of the parser.
    pub closed spec fn version(&self) -> TuyaVersion {
        self.mp.version()
    }

    /// The device key.
    pub closed spec fn key(&self) -> Seq<u8> {
        self.mp.key()
    }

    /// The way to reach the device.
    pub closed spec fn spec_transport(&self) -> Transport {
        self.transport
    }

    /// The version that the device speaks.
    pub closed spec fn ver(&self) -> TuyaVersion {
        self.ver
    }

    /// A device that speaks the version `ver` names, with the key `key`,
    /// reached through a stream socket on [`DEFAULT_PORT`].
    ///
    /// Fails as [`MessageParser::create`] does.
    pub fn create(ver: &str, key: Option<&str>) -> (res: Result<TuyaDevice>)
        ensures
            match res {
                Ok(device) => version_of(ver@) == Some(device.version()) && device.ver()
                    == device.version() && verified_key(key_bytes(key)) == Ok::<_, ErrorKind>(
                    device.key(),
                ) && device.spec_transport() == Transport::TCP(DEFAULT_PORT),
                Err(ErrorKind::VersionError(_, _)) => version_of(ver@) is None,
                Err(ErrorKind::KeyLength(n)) => version_of(ver@) is Some && verified_key(
                    key_bytes(key),
                ) == Err::<Seq<u8>, _>(ErrorKind::KeyLength(n)),
                Err(_) => false,
            },
    {
        TuyaDevice::create_with_transport(ver, key, Transport::TCP(DEFAULT_PORT))
    }

    /// A device that speaks the version `ver` names, with the key `key`,
    /// reached through `transport`.
    ///
    /// Fails as [`MessageParser::create`] does.
    pub fn create_with_transport(ver: &str, key: Option<&str>, transport: Transport) -> (res:
        Result<TuyaDevice>)
        ensures
            match res {
                Ok(device) => version_of(ver@) == Some(device.version()) && device.ver()
                    == device.version() && verified_key(key_bytes(key)) == Ok::<_, ErrorKind>(
                    device.key(),
                ) && device.spec_transport() == transport,
                Err(ErrorKind::VersionError(_, _)) => version_of(ver@) is None,
                Err(ErrorKind::KeyLength(n)) => version_of(ver@) is Some && verified_key(
                    key_bytes(key),
                ) == Err::<Seq<u8>, _>(ErrorKind::KeyLength(n)),
                Err(_) => false,
            },
    {
        let mp = match MessageParser::create(ver, key) {
            Ok(mp) => mp,
            Err(e) => {
                return Err(e);
            },
        };
        let version = match TuyaVersion::from_str(ver) {
            Ok(version) => version,
            Err(e) => {
                return Err(e);
            },
        };
        Ok(TuyaDevice::create_with_mp(mp, transport, version))
    }

    /// A device of these parts.
    pub fn create_with_mp(mp: MessageParser, transport: Transport, ver: TuyaVersion) -> (device:
        TuyaDevice)
        ensures
            device.version() == mp.version(),
            device.key() == mp.key(),
            device.spec_transport() == transport,
            device.ver() == ver,
    {
        TuyaDevice { mp, transport, ver }
    }

    /// The way to reach the device.
    #[verifier::when_used_as_spec(spec_transport)]
    pub fn transport(&self) -> (transport: Transport)
        ensures
            transport == self.spec_transport(),
    {
        self.transport
    }

    /// The command that sets data points.
    fn set_commandtype(&self) -> (command: CommandType)
        ensures
            command == CommandType::Control,
    {
        match self.ver {
            TuyaVersion::ThreeOne | TuyaVersion::ThreeThree => CommandType::Control,
        }
    }

    /// The command that asks for the data points.
    fn get_commandtype(&self) -> (command: CommandType)
        ensures
            command == CommandType::DpQuery,
    {
        match self.ver {
            TuyaVersion::ThreeOne | TuyaVersion::ThreeThree => CommandType::DpQuery,
        }
    }

    /// The command that asks the device to report its data points anew.
    fn refresh_commandtype(&self) -> (command: CommandType)
        ensures
            command == CommandType::DpRefresh,
    {
        match self.ver {
            TuyaVersion::ThreeOne | TuyaVersion::ThreeThree => CommandType::DpRefresh,
        }
    }

    /// The frame that sets data points: a `Control` message with the
    /// sequence number `seq_id`, its payload encrypted.
    ///
    /// Fails as [`TuyaDevice::send`] does.
    pub fn set(&self, tuya_payload: &[u8], seq_id: u32) -> (res: Result<Vec<u8>>)
        ensures
            self.sent(request(CommandType::Control, tuya_payload@, seq_id), res),
    {
        let mes = Message::new(tuya_payload, self.set_commandtype(), Some(seq_id));
        self.send(&mes)
    }

    /// The frame that asks for the data points: a `DpQuery` message with the
    /// sequence number `seq_id`, its payload encrypted.
    ///
    /// Fails as [`TuyaDevice::send`] does.
    pub fn get(&self, tuya_payload: &[u8], seq_id: u32) -> (res: Result<Vec<u8>>)
        ensures
            self.sent(request(CommandType::DpQuery, tuya_payload@, seq_id), res),
    {
        let mes = Message::new(tuya_payload, self.get_commandtype(), Some(seq_id));
        self.send(&mes)
    }

    /// The frame that asks the device to report its data points anew: a
    /// `DpRefresh` message with the sequence number `seq_id`, its payload
    /// encrypted.
    ///
    /// Fails as [`TuyaDevice::send`] does.
    pub fn refresh(&self, tuya_payload: &[u8], seq_id: u32) -> (res: Result<Vec<u8>>)
        ensures
            self.sent(request(CommandType::DpRefresh, tuya_payload@, seq_id), res),
    {
        let mes = Message::new(tuya_payload, self.refresh_commandtype(), Some(seq_id));
        self.send(&mes)
    }

    /// Whether `res` is what [`TuyaDevice::send`] may give for `message`.
    pub open spec fn sent(&self, message: MessageView, res: Result<Vec<u8>>) -> bool {
        match res {
            Ok(bytes) => message.command is Some && message.payload.len() <= MAX_CIPHER_INPUT
                && encoded(self.version(), self.key(), message, true) == Some(bytes@),
            Err(ErrorKind::CommandTypeMissing) => message.command is None,
            Err(ErrorKind::ParseError(ParseErrorKind::TooLarge)) => message.command is Some
                && message.payload.len() > MAX_CIPHER_INPUT,
            Err(ErrorKind::EncryptionError(_)) => message.command is Some && message.payload.len()
                <= MAX_CIPHER_INPUT && aes_128_ecb_encrypted(self.key(), message.payload)
                is None,
            Err(_) => false,
        }
    }

    /// The frame that goes out for `mes`, its payload encrypted.
    ///
    /// Fails with `CommandTypeMissing` where the message has no command;
    /// otherwise with `ParseError(TooLarge)` where the payload is too long for
    /// the cipher; and with `EncryptionError` where the cipher fails.
    pub fn send(&self, mes: &Message) -> (res: Result<Vec<u8>>)
        ensures
            self.sent(mes@, res),
    {
        self.mp.encode(mes, true)
    }

    /// What the bytes mean that one read of the reply returned: the messages
    /// of the frames they consist of.
    ///
    /// Fails with `BadTcpRead` or `BadUdpRead`, as the transport has it, where
    /// the read returned no bytes, and as [`MessageParser::parse`] does
    /// otherwise.
    pub fn receive(&self, received: &[u8]) -> (res: Result<Vec<Message>>)
        ensures
            received@.len() == 0 ==> match self.spec_transport() {
                Transport::TCP(_) => res matches Err(ErrorKind::BadTcpRead),
                Transport::UDP(_) => res matches Err(ErrorKind::BadUdpRead),
            },
            received@.len() > 0 ==> match res {
                Ok(messages) => parsed(self.version(), self.key(), received@) == Ok::<
                    _,
                    ErrorKind,
                >(views(messages@)),
                Err(e) => parsed(self.version(), self.key(), received@) == Err::<
                    Seq<MessageView>,
                    _,
                >(e),
            },
    {
        if received.len() == 0 {
            return Err(self.transport.error());
        }
        self.mp.parse(received)
    }
}

} // verus!
