//! The failures that the library reports.
use vstd::prelude::*;

verus! {

/// Failures that the AES backend reports.
#[verifier::external_type_specification]
#[verifier::external_body]
pub struct ExErrorStack(openssl::error::ErrorStack);

/// The reason a text is not base64.
#[verifier::external_type_specification]
#[verifier::external_body]
pub struct ExDecodeError(base64::DecodeError);

/// The reason a text is not the JSON that was asked for.
#[verifier::external_type_specification]
#[verifier::external_body]
pub struct ExJsonError(serde_json::Error);

/// A failed socket operation.
#[verifier::external_type_specification]
#[verifier::external_body]
pub struct ExIoError(std::io::Error);

/// A clock that reads earlier than the Unix epoch.
#[verifier::external_type_specification]
#[verifier::external_body]
pub struct ExSystemTimeError(std::time::SystemTimeError);

/// The way in which a buffer fails to have the shape of a frame.
#[derive(Debug, Clone, Copy, PartialEq, Eq, Structural)]
pub enum ParseErrorKind {
    /// A magic number is not where it has to be.
    Tag,
    /// The buffer ends inside a fixed-width field.
    Eof,
    /// The declared length is too small to hold what it has to cover.
    LengthValue,
    /// The frame is longer than its length field can say.
    TooLarge,
}

/// Every failure the library can report. A variant that wraps a failure of an
/// underlying library carries that cause unchanged.
#[derive(Debug)]
pub enum ErrorKind {
    /// A 3.1 payload is not valid base64.
    Base64DecodeError(base64::DecodeError),
    /// AES encryption failed.
    EncryptionError(openssl::error::ErrorStack),
    /// AES decryption failed.
    DecryptionError(openssl::error::ErrorStack),
    /// A payload could not be turned into JSON, or JSON into a payload.
    JsonError(serde_json::Error),
    /// The system clock could not be read as a Unix time.
    SystemTimeError(std::time::SystemTimeError),
    /// A stream socket failed.
    TcpError(std::io::Error),
    /// A datagram socket failed.
    UdpError(std::io::Error),
    /// The buffer does not have the shape of a frame.
    ParseError(ParseErrorKind),
    /// Bytes are left over behind the last complete frame.
    BufferNotCompletelyParsedError,
    /// A message without a command cannot be encoded.
    CanNotEncodeMessageWithoutCommand,
    /// No command was supplied in the message.
    CommandTypeMissing,
    /// The checksum in the frame is not the checksum of the frame.
    CRCError,
    /// The key has this many bytes instead of 16.
    KeyLength(usize),
    /// The device was made without an address.
    MissingAddressError,
    /// The buffer ends in the middle of a frame.
    ParsingIncomplete,
    /// A read from a stream socket returned no bytes.
    BadTcpRead,
    /// A read from a datagram socket returned no bytes.
    BadUdpRead,
    /// The version string names no known version; the two strings are its
    /// major and minor parts.
    VersionError(String, String),
}

/// What a function of the library returns that can fail.
pub type Result<T> = core::result::Result<T, ErrorKind>;

} // verus!
